use vstd::prelude::*;
use crate::observability::{now_ms, PerformanceLog};
use crate::text::{decimal, decimal_string};

verus! {

/// The rows of the file list that are on screen.
#[derive(Clone, Copy, Debug, PartialEq, Eq, Structural)]
pub struct VisibleRange {
    pub start_index: usize,
    pub end_index: usize,
}

/// The number of visible rows, saturating: `end - start + 1`, at least 1.
pub open spec fn range_span(r: VisibleRange) -> int {
    let d: int = if r.end_index >= r.start_index {
        r.end_index - r.start_index
    } else {
        0
    };
    if d + 1 > usize::MAX {
        usize::MAX as int
    } else {
        d + 1
    }
}

impl VisibleRange {
    /// The number of visible rows (see `range_span`).
    pub fn span(&self) -> (r: usize)
        ensures
            r == range_span(*self),
    {
        self.end_index.saturating_sub(self.start_index).saturating_add(1)
    }
}

/// What the front end reports about the user's activity.
#[derive(Clone, Debug, PartialEq, Eq)]
pub struct SchedulerSignal {
    pub active_tab_id: String,
    pub visible_range: Option<VisibleRange>,
    pub last_input_at_ms: Option<u64>,
    pub is_scrolling: bool,
    pub interaction_epoch: u64,
}

/// The span of the visible range, if any.
pub open spec fn signal_span(s: SchedulerSignal) -> Option<int> {
    match s.visible_range {
        Some(r) => Some(range_span(r)),
        None => None,
    }
}

/// The time since the last input, saturating at 0, if an input is known.
pub open spec fn latency_at(s: SchedulerSignal, now: u64) -> Option<u64> {
    match s.last_input_at_ms {
        Some(t) => Some(if now >= t {
            (now - t) as u64
        } else {
            0
        }),
        None => None,
    }
}

impl SchedulerSignal {
    /// The span of the visible range, if any.
    pub fn visible_span(&self) -> (r: Option<usize>)
        ensures
            match r {
                Some(n) => signal_span(*self) == Some(n as int),
                None => signal_span(*self) is None,
            },
    {
        match &self.visible_range {
            Some(range) => Some(range.span()),
            None => None,
        }
    }

    /// The time from the last input to `now_ms`, if an input is known.
    pub fn interaction_latency_ms(&self, now_ms: u64) -> (r: Option<u64>)
        ensures
            r == latency_at(*self, now_ms),
    {
        match self.last_input_at_ms {
            Some(t) => Some(now_ms.saturating_sub(t)),
            None => None,
        }
    }
}

/// The kinds of work the back end schedules.
#[derive(Clone, Copy, Debug, PartialEq, Eq, Hash, Structural)]
pub enum WorkKind {
    ForegroundDirectoryEnumeration,
    VisibleThumbnail,
    ForegroundSearch,
    FileProgress,
    BackgroundRefresh,
    NonVisibleThumbnail,
    BackgroundRecursiveSearch,
}

/// The tie-break rank of a kind of work (its place in the architecture plan).
pub open spec fn rank(k: WorkKind) -> int {
    match k {
        WorkKind::ForegroundDirectoryEnumeration => 0,
        WorkKind::VisibleThumbnail => 1,
        WorkKind::ForegroundSearch => 2,
        WorkKind::FileProgress => 3,
        WorkKind::BackgroundRefresh => 4,
        WorkKind::NonVisibleThumbnail => 5,
        WorkKind::BackgroundRecursiveSearch => 6,
    }
}

impl WorkKind {
    fn sort_index(&self) -> (r: u8)
        ensures
            r == rank(*self),
    {
        match self {
            WorkKind::ForegroundDirectoryEnumeration => 0,
            WorkKind::VisibleThumbnail => 1,
            WorkKind::ForegroundSearch => 2,
            WorkKind::FileProgress => 3,
            WorkKind::BackgroundRefresh => 4,
            WorkKind::NonVisibleThumbnail => 5,
            WorkKind::BackgroundRecursiveSearch => 6,
        }
    }
}

/// Priority tiers, most urgent first.
#[derive(Clone, Copy, Debug, PartialEq, Eq, Structural)]
pub enum PriorityKind {
    Urgent,
    High,
    Normal,
    Low,
    Background,
    Deferred,
    Lowest,
}

/// One kind of work with its priority.
#[derive(Clone, Copy, Debug, PartialEq, Eq, Structural)]
pub struct ScheduledWork {
    pub work_kind: WorkKind,
    pub priority_kind: PriorityKind,
    pub score: u16,
}

/// Which report an acknowledgement answers.
#[derive(Clone, Copy, Debug, PartialEq, Eq, Structural)]
pub enum SchedulerReportKind {
    Viewport,
    Interaction,
}

/// The answer to a viewport or interaction report.
#[derive(Clone, Debug, PartialEq, Eq)]
pub struct SchedulerReportAck {
    pub accepted: bool,
    pub report_kind: SchedulerReportKind,
    pub active_tab_id: String,
    pub interaction_epoch: u64,
    pub visible_range: Option<VisibleRange>,
    pub priority_order: Vec<WorkKind>,
    pub interaction_latency_ms: Option<u64>,
    pub frame_budget_degraded: bool,
    pub stale_interaction_epoch: bool,
    pub tracked_interaction_epoch: u64,
    pub summary: String,
}

/// The priority score of a kind of work (lower runs sooner). Thumbnails are
/// slightly later when nothing is visible; background work drops while the
/// user scrolls.
pub open spec fn score_of(s: SchedulerSignal, k: WorkKind) -> int {
    let visible = match signal_span(s) {
        Some(n) => n > 0,
        None => false,
    };
    match k {
        WorkKind::ForegroundDirectoryEnumeration => 0,
        WorkKind::VisibleThumbnail => if visible {
            10
        } else {
            12
        },
        WorkKind::ForegroundSearch => 20,
        WorkKind::FileProgress => 30,
        WorkKind::BackgroundRefresh => if s.is_scrolling {
            50
        } else {
            40
        },
        WorkKind::NonVisibleThumbnail => if s.is_scrolling {
            110
        } else {
            50
        },
        WorkKind::BackgroundRecursiveSearch => if s.is_scrolling {
            130
        } else {
            60
        },
    }
}

/// The tier of a score.
pub open spec fn tier_of(score: int) -> PriorityKind {
    if score <= 9 {
        PriorityKind::Urgent
    } else if score <= 19 {
        PriorityKind::High
    } else if score <= 29 {
        PriorityKind::Normal
    } else if score <= 39 {
        PriorityKind::Low
    } else if score <= 59 {
        PriorityKind::Background
    } else if score <= 99 {
        PriorityKind::Deferred
    } else {
        PriorityKind::Lowest
    }
}

fn priority_score(signal: &SchedulerSignal, work_kind: WorkKind) -> (r: u16)
    ensures
        r == score_of(*signal, work_kind),
{
    let visible_span = match signal.visible_span() {
        Some(n) => n,
        None => 0,
    };
    match work_kind {
        WorkKind::ForegroundDirectoryEnumeration => 0,
        WorkKind::VisibleThumbnail => if visible_span > 0 {
            10
        } else {
            12
        },
        WorkKind::ForegroundSearch => 20,
        WorkKind::FileProgress => 30,
        WorkKind::BackgroundRefresh => if signal.is_scrolling {
            50
        } else {
            40
        },
        WorkKind::NonVisibleThumbnail => if signal.is_scrolling {
            110
        } else {
            50
        },
        WorkKind::BackgroundRecursiveSearch => if signal.is_scrolling {
            130
        } else {
            60
        },
    }
}

fn priority_kind_for_score(score: u16) -> (r: PriorityKind)
    ensures
        r == tier_of(score as int),
{
    if score <= 9 {
        PriorityKind::Urgent
    } else if score <= 19 {
        PriorityKind::High
    } else if score <= 29 {
        PriorityKind::Normal
    } else if score <= 39 {
        PriorityKind::Low
    } else if score <= 59 {
        PriorityKind::Background
    } else if score <= 99 {
        PriorityKind::Deferred
    } else {
        PriorityKind::Lowest
    }
}

/// The seven kinds of work in the order of the architecture plan.
pub open spec fn plan_order() -> Seq<WorkKind> {
    seq![
        WorkKind::ForegroundDirectoryEnumeration,
        WorkKind::VisibleThumbnail,
        WorkKind::ForegroundSearch,
        WorkKind::FileProgress,
        WorkKind::BackgroundRefresh,
        WorkKind::NonVisibleThumbnail,
        WorkKind::BackgroundRecursiveSearch,
    ]
}

/// `a` is scheduled before `b`: lower score, or equal score and lower rank.
pub open spec fn runs_before(a: ScheduledWork, b: ScheduledWork) -> bool {
    a.score < b.score || (a.score == b.score && rank(a.work_kind) < rank(b.work_kind))
}

/// The scheduled form of a kind of work under a signal.
pub open spec fn scheduled(s: SchedulerSignal, k: WorkKind) -> ScheduledWork {
    ScheduledWork { work_kind: k, priority_kind: tier_of(score_of(s, k)), score: score_of(s, k) as u16 }
}

/// `r` holds every kind of work once, scheduled under `s`, in scheduling
/// order.
pub open spec fn is_priority_snapshot(s: SchedulerSignal, r: Seq<ScheduledWork>) -> bool {
    &&& r.to_multiset() == plan_order().map_values(|k: WorkKind| scheduled(s, k)).to_multiset()
    &&& forall|p: int, q: int| 0 <= p < q < r.len() ==> runs_before(r[p], r[q])
}

/// Every kind of work with its score and tier, in scheduling order (by
/// score, ties broken by the plan's order).
pub fn priority_snapshot(signal: &SchedulerSignal) -> (r: Vec<ScheduledWork>)
    ensures
        r.len() == 7,
        is_priority_snapshot(*signal, r@),
{
    broadcast use {vstd::seq_lib::to_multiset_insert, vstd::seq_lib::to_multiset_build};

    let kinds: [WorkKind; 7] = [
        WorkKind::ForegroundDirectoryEnumeration,
        WorkKind::VisibleThumbnail,
        WorkKind::ForegroundSearch,
        WorkKind::FileProgress,
        WorkKind::BackgroundRefresh,
        WorkKind::NonVisibleThumbnail,
        WorkKind::BackgroundRecursiveSearch,
    ];
    let ghost items = plan_order().map_values(|k: WorkKind| scheduled(*signal, k));
    assert(kinds@ =~= plan_order());
    let mut out: Vec<ScheduledWork> = Vec::new();
    assert(out@ =~= items.take(0));
    for i in 0..7
        invariant
            kinds@ == plan_order(),
            items == plan_order().map_values(|k: WorkKind| scheduled(*signal, k)),
            out.len() == i,
            out@.to_multiset() == items.take(i as int).to_multiset(),
            forall|p: int, q: int| 0 <= p < q < out.len() ==> runs_before(out@[p], out@[q]),
            forall|p: int| 0 <= p < out.len() ==> rank(#[trigger] out@[p].work_kind) < i,
    {
        let k = kinds[i];
        let score = priority_score(signal, k);
        let w = ScheduledWork { work_kind: k, priority_kind: priority_kind_for_score(score), score };
        assert(w == items[i as int]);
        let rk = k.sort_index();
        let mut pos: usize = 0;
        while pos < out.len() && (out[pos].score < score || (out[pos].score == score
            && out[pos].work_kind.sort_index() < rk))
            invariant
                pos <= out.len(),
                rk == rank(k),
                w.score == score,
                w.work_kind == k,
                forall|p: int| 0 <= p < pos ==> runs_before(out@[p], w),
            decreases out.len() - pos,
        {
            pos = pos + 1;
        }
        let ghost old_out = out@;
        proof {
            assert(rank(k) == i);
            assert forall|q: int| pos <= q < old_out.len() implies runs_before(w, old_out[q]) by {
                assert(rank(old_out[q].work_kind) < i);
                if q > pos {
                    assert(runs_before(old_out[pos as int], old_out[q]));
                }
            }
        }
        out.insert(pos, w);
        proof {
            assert(items.take(i + 1) =~= items.take(i as int).push(items[i as int]));
            vstd::seq_lib::to_multiset_insert(old_out, pos as int, w);
            vstd::seq_lib::to_multiset_build(items.take(i as int), items[i as int]);
            assert forall|p: int, q: int| 0 <= p < q < out.len() implies runs_before(
                out@[p],
                out@[q],
            ) by {
                if q < pos {
                    assert(out@[p] == old_out[p] && out@[q] == old_out[q]);
                } else if q == pos {
                    assert(out@[p] == old_out[p]);
                } else if p < pos {
                    assert(out@[p] == old_out[p] && out@[q] == old_out[q - 1]);
                } else if p == pos {
                    assert(out@[q] == old_out[q - 1]);
                } else {
                    assert(out@[p] == old_out[p - 1] && out@[q] == old_out[q - 1]);
                }
            }
            assert forall|p: int| 0 <= p < out.len() implies rank(#[trigger] out@[p].work_kind)
                < i + 1 by {
                if p < pos {
                    assert(out@[p] == old_out[p]);
                } else if p > pos {
                    assert(out@[p] == old_out[p - 1]);
                }
            }
        }
    }
    assert(items.take(7) =~= items);
    out
}

/// The kinds of work in scheduling order (the order of
/// `priority_snapshot`), which for every signal is the plan's order.
pub fn priority_order(signal: &SchedulerSignal) -> (r: Vec<WorkKind>)
    ensures
        r@ == plan_order(),
{
    let snap = priority_snapshot(signal);
    let mut r: Vec<WorkKind> = Vec::new();
    for i in 0..snap.len()
        invariant
            r@ == snap@.take(i as int).map_values(|w: ScheduledWork| w.work_kind),
    {
        r.push(snap[i].work_kind);
        assert(r@ =~= snap@.take(i + 1).map_values(|w: ScheduledWork| w.work_kind));
    }
    assert(snap@.take(snap.len() as int) =~= snap@);
    proof {
        lemma_priority_order_is_plan_order(*signal, snap@);
    }
    r
}

/// An interaction epoch older than the latest one seen is stale.
pub fn is_interaction_epoch_stale(latest_epoch: u64, incoming_epoch: u64) -> (r: bool)
    ensures
        r == (incoming_epoch < latest_epoch),
{
    incoming_epoch < latest_epoch
}

} // verus!

verus! {

proof fn lemma_sorted_unique(a: Seq<ScheduledWork>, b: Seq<ScheduledWork>)
    requires
        a.to_multiset() == b.to_multiset(),
        forall|p: int, q: int| 0 <= p < q < a.len() ==> runs_before(a[p], a[q]),
        forall|p: int, q: int| 0 <= p < q < b.len() ==> runs_before(b[p], b[q]),
    ensures
        a == b,
    decreases a.len(),
{
    broadcast use {vstd::seq_lib::to_multiset_len, vstd::seq_lib::to_multiset_contains};

    assert(a.len() == b.to_multiset().len());
    if a.len() == 0 {
        assert(a =~= b);
    } else {
        assert(a.contains(a[0]));
        assert(a.to_multiset().count(a[0]) > 0);
        assert(b.to_multiset().count(a[0]) > 0);
        assert(b.contains(a[0]));
        assert(b.contains(b[0]));
        assert(b.to_multiset().count(b[0]) > 0);
        assert(a.to_multiset().count(b[0]) > 0);
        assert(a.contains(b[0]));
        let k = choose|k: int| 0 <= k < b.len() && b[k] == a[0];
        let j = choose|j: int| 0 <= j < a.len() && a[j] == b[0];
        if k > 0 && j > 0 {
            assert(runs_before(b[0], b[k]));
            assert(runs_before(a[0], a[j]));
            assert(false);
        }
        assert(a[0] == b[0]);
        vstd::seq_lib::to_multiset_remove(a, 0);
        vstd::seq_lib::to_multiset_remove(b, 0);
        assert(a.remove(0) =~= a.drop_first());
        assert(b.remove(0) =~= b.drop_first());
        lemma_sorted_unique(a.drop_first(), b.drop_first());
        assert forall|i: int| 0 <= i < a.len() implies a[i] == b[i] by {
            if i > 0 {
                assert(a[i] == a.drop_first()[i - 1]);
                assert(b[i] == b.drop_first()[i - 1]);
            }
        }
        assert(a =~= b);
    }
}

/// Whatever the signal, the kinds of work run in the order of the
/// architecture plan: directory enumeration, visible thumbnails, foreground
/// search, file progress, background refresh, non-visible thumbnails,
/// background recursive search.
pub proof fn lemma_priority_order_is_plan_order(s: SchedulerSignal, snap: Seq<ScheduledWork>)
    requires
        is_priority_snapshot(s, snap),
    ensures
        snap == plan_order().map_values(|k: WorkKind| scheduled(s, k)),
        snap.map_values(|w: ScheduledWork| w.work_kind) == plan_order(),
{
    let items = plan_order().map_values(|k: WorkKind| scheduled(s, k));
    assert forall|p: int, q: int| 0 <= p < q < items.len() implies runs_before(items[p], items[q]) by {
        assert(items[p] == scheduled(s, plan_order()[p]));
        assert(items[q] == scheduled(s, plan_order()[q]));
    }
    lemma_sorted_unique(snap, items);
    assert(snap.map_values(|w: ScheduledWork| w.work_kind) =~= plan_order());
}

} // verus!

verus! {

/// The latest interaction epoch seen for one tab.
struct TabSnapshot {
    tab_id: String,
    latest_interaction_epoch: u64,
}

/// The epochs of `s` as a map from tab id (later entries win).
spec fn tab_map(s: Seq<TabSnapshot>) -> Map<Seq<char>, u64>
    decreases s.len(),
{
    if s.len() == 0 {
        Map::empty()
    } else {
        tab_map(s.drop_last()).insert(s.last().tab_id@, s.last().latest_interaction_epoch)
    }
}

spec fn distinct_tabs(s: Seq<TabSnapshot>) -> bool {
    forall|i: int, j: int| 0 <= i < j < s.len() ==> s[i].tab_id@ != s[j].tab_id@
}

proof fn lemma_tab_map_lookup(s: Seq<TabSnapshot>, i: int)
    requires
        distinct_tabs(s),
        0 <= i < s.len(),
    ensures
        tab_map(s).contains_key(s[i].tab_id@),
        tab_map(s)[s[i].tab_id@] == s[i].latest_interaction_epoch,
    decreases s.len(),
{
    if i < s.len() - 1 {
        lemma_tab_map_lookup(s.drop_last(), i);
        assert(s.drop_last()[i] == s[i]);
    }
}

proof fn lemma_tab_map_absent(s: Seq<TabSnapshot>, id: Seq<char>)
    requires
        forall|i: int| 0 <= i < s.len() ==> s[i].tab_id@ != id,
    ensures
        !tab_map(s).contains_key(id),
    decreases s.len(),
{
    if s.len() > 0 {
        lemma_tab_map_absent(s.drop_last(), id);
    }
}

proof fn lemma_tab_map_update(s: Seq<TabSnapshot>, i: int, t: TabSnapshot)
    requires
        distinct_tabs(s),
        0 <= i < s.len(),
        t.tab_id@ == s[i].tab_id@,
    ensures
        tab_map(s.update(i, t)) == tab_map(s).insert(t.tab_id@, t.latest_interaction_epoch),
    decreases s.len(),
{
    let s2 = s.update(i, t);
    if i == s.len() - 1 {
        assert(s2.drop_last() =~= s.drop_last());
        assert(tab_map(s2) =~= tab_map(s).insert(t.tab_id@, t.latest_interaction_epoch));
    } else {
        assert(s2.drop_last() =~= s.drop_last().update(i, t));
        lemma_tab_map_update(s.drop_last(), i, t);
        assert(s.last().tab_id@ != t.tab_id@);
        assert(tab_map(s2) =~= tab_map(s).insert(t.tab_id@, t.latest_interaction_epoch));
    }
}

/// The scheduler's memory: the latest interaction epoch of each tab.
pub struct SchedulerState {
    tabs: Vec<TabSnapshot>,
}

impl View for SchedulerState {
    type V = Map<Seq<char>, u64>;

    closed spec fn view(&self) -> Map<Seq<char>, u64> {
        tab_map(self.tabs@)
    }
}

/// The epoch recorded for a tab before a report (0 for an unknown tab).
pub open spec fn epoch_before(m: Map<Seq<char>, u64>, tab: Seq<char>) -> u64 {
    if m.contains_key(tab) {
        m[tab]
    } else {
        0
    }
}

impl SchedulerState {
    /// The state invariant: one entry per tab.
    pub closed spec fn wf(&self) -> bool {
        distinct_tabs(self.tabs@)
    }

    /// A scheduler that has seen no tab.
    pub fn new() -> (r: SchedulerState)
        ensures
            r.wf(),
            r@ == Map::<Seq<char>, u64>::empty(),
    {
        SchedulerState { tabs: Vec::new() }
    }

    /// Forgets every tab (`reset_scheduler_state`).
    pub fn reset_scheduler_state(&mut self)
        ensures
            final(self).wf(),
            final(self)@ == Map::<Seq<char>, u64>::empty(),
    {
        self.tabs.clear();
    }

    /// Records an incoming epoch for a tab. It is stale when older than the
    /// latest one recorded; a stale epoch leaves the record unchanged. Gives
    /// back whether it was stale and the epoch now recorded.
    pub fn update_tab_snapshot(&mut self, active_tab_id: &str, interaction_epoch: u64) -> (r: (
        bool,
        u64,
    ))
        requires
            old(self).wf(),
        ensures
            final(self).wf(),
            r.0 == (interaction_epoch < epoch_before(old(self)@, active_tab_id@)),
            r.1 == (if r.0 {
                epoch_before(old(self)@, active_tab_id@)
            } else {
                interaction_epoch
            }),
            final(self)@ == old(self)@.insert(active_tab_id@, r.1),
    {
        let id = String::from_str(active_tab_id);
        let n = self.tabs.len();
        let mut i: usize = 0;
        while i < n && !(self.tabs[i].tab_id == id)
            invariant
                n == self.tabs.len(),
                i <= n,
                forall|j: int| 0 <= j < i ==> self.tabs@[j].tab_id@ != id@,
            decreases n - i,
        {
            i = i + 1;
        }
        if i < n {
            proof {
                lemma_tab_map_lookup(self.tabs@, i as int);
            }
            let current = self.tabs[i].latest_interaction_epoch;
            let stale = interaction_epoch < current;
            if !stale {
                let ghost before = self.tabs@;
                let t = TabSnapshot { tab_id: id, latest_interaction_epoch: interaction_epoch };
                self.tabs.set(i, t);
                proof {
                    lemma_tab_map_update(before, i as int, t);
                    assert forall|a: int, b: int|
                        0 <= a < b < self.tabs@.len() implies self.tabs@[a].tab_id@
                        != self.tabs@[b].tab_id@ by {
                        if a != i && b != i {
                            assert(self.tabs@[a] == before[a]);
                            assert(self.tabs@[b] == before[b]);
                        } else if a == i {
                            assert(self.tabs@[b] == before[b]);
                        } else {
                            assert(self.tabs@[a] == before[a]);
                        }
                    }
                }
                (false, interaction_epoch)
            } else {
                assert(self@ =~= self@.insert(active_tab_id@, current));
                (true, current)
            }
        } else {
            proof {
                lemma_tab_map_absent(self.tabs@, id@);
            }
            let ghost before = self.tabs@;
            self.tabs.push(TabSnapshot { tab_id: id, latest_interaction_epoch: interaction_epoch });
            proof {
                assert(self.tabs@.drop_last() =~= before);
            }
            (false, interaction_epoch)
        }
    }
}

} // verus!

verus! {

/// The summary line of a viewport acknowledgement.
pub open spec fn viewport_summary(tab: Seq<char>, degraded: bool, stale: bool) -> Seq<char> {
    "viewport ack for tab '"@ + tab + "' with "@ + decimal(7) + " priority tiers"@ + (if degraded {
        ", frame budget degraded"@
    } else {
        Seq::empty()
    }) + (if stale {
        ", stale interaction epoch detected"@
    } else {
        Seq::empty()
    })
}

/// The summary line of an interaction acknowledgement.
pub open spec fn interaction_summary(tab: Seq<char>, latency: Option<u64>, degraded: bool) -> Seq<
    char,
> {
    "interaction ack for tab '"@ + tab + "' with latency "@ + (match latency {
        Some(v) => decimal(v as nat) + "ms"@,
        None => "unknown"@,
    }) + (if degraded {
        ", frame budget degraded"@
    } else {
        Seq::empty()
    })
}

/// `ack` answers a report of `kind` for `signal` with these values.
pub open spec fn is_ack(
    ack: SchedulerReportAck,
    signal: SchedulerSignal,
    kind: SchedulerReportKind,
    latency: Option<u64>,
    degraded: bool,
    stale: bool,
    kept_epoch: u64,
) -> bool {
    &&& ack.accepted
    &&& ack.report_kind == kind
    &&& ack.active_tab_id@ == signal.active_tab_id@
    &&& ack.interaction_epoch == signal.interaction_epoch
    &&& ack.visible_range == signal.visible_range
    &&& ack.priority_order@ == plan_order()
    &&& ack.interaction_latency_ms == latency
    &&& ack.frame_budget_degraded == degraded
    &&& ack.stale_interaction_epoch == stale
    &&& ack.tracked_interaction_epoch == kept_epoch
    &&& ack.summary@ == match kind {
        SchedulerReportKind::Viewport => viewport_summary(signal.active_tab_id@, degraded, stale),
        SchedulerReportKind::Interaction => interaction_summary(
            signal.active_tab_id@,
            latency,
            degraded,
        ),
    }
}

/// `s` is a frame-budget sample for this tab and epoch.
pub open spec fn is_frame_sample(
    s: crate::observability::PerformanceSample,
    tab: Seq<char>,
    epoch: u64,
    degraded: bool,
) -> bool {
    s.key@ == crate::observability::FRAME_BUDGET_DEGRADED_KEY@ && s.value_ms.is_none()
        && s.degraded == Some(degraded) && s.active_tab_id@ == tab && s.interaction_epoch == epoch
}

/// `s` is an interaction-latency sample for this tab and epoch.
pub open spec fn is_latency_sample(
    s: crate::observability::PerformanceSample,
    tab: Seq<char>,
    epoch: u64,
    value: u64,
) -> bool {
    s.key@ == crate::observability::INTERACTION_LATENCY_MS_KEY@ && s.value_ms == Some(value)
        && s.degraded.is_none() && s.active_tab_id@ == tab && s.interaction_epoch == epoch
}

/// The epoch recorded for the signal's tab after a report.
pub open spec fn epoch_after(m: Map<Seq<char>, u64>, signal: SchedulerSignal) -> u64 {
    if signal.interaction_epoch < epoch_before(m, signal.active_tab_id@) {
        epoch_before(m, signal.active_tab_id@)
    } else {
        signal.interaction_epoch
    }
}

/// The viewport counts as over the frame budget while scrolling or when
/// 128 or more rows are visible.
pub open spec fn viewport_degraded(signal: SchedulerSignal) -> bool {
    signal.is_scrolling || match signal_span(signal) {
        Some(n) => n >= 128,
        None => false,
    }
}

impl SchedulerState {
    fn summarize_report(
        &mut self,
        log: &mut PerformanceLog,
        signal: SchedulerSignal,
        report_kind: SchedulerReportKind,
        interaction_latency_ms: Option<u64>,
        frame_budget_degraded: bool,
    ) -> (ack: SchedulerReportAck)
        requires
            old(self).wf(),
        ensures
            final(self).wf(),
            final(self)@ == old(self)@.insert(signal.active_tab_id@, epoch_after(old(self)@, signal)),
            final(log)@.len() == old(log)@.len() + 1,
            final(log)@.take(old(log)@.len() as int) == old(log)@,
            is_frame_sample(
                final(log)@.last(),
                signal.active_tab_id@,
                signal.interaction_epoch,
                frame_budget_degraded,
            ),
            is_ack(
                ack,
                signal,
                report_kind,
                interaction_latency_ms,
                frame_budget_degraded,
                signal.interaction_epoch < epoch_before(old(self)@, signal.active_tab_id@),
                epoch_after(old(self)@, signal),
            ),
    {
        let priority_order = priority_order(&signal);
        let (stale, kept_epoch) = self.update_tab_snapshot(
            signal.active_tab_id.as_str(),
            signal.interaction_epoch,
        );
        let ghost log_before = log@;
        log.record_frame_budget_degraded(
            signal.active_tab_id.as_str(),
            signal.interaction_epoch,
            frame_budget_degraded,
        );
        assert(log@.take(log_before.len() as int) =~= log_before);
        let tab = signal.active_tab_id.as_str();
        let mut summary;
        match report_kind {
            SchedulerReportKind::Viewport => {
                summary = String::from_str("viewport ack for tab '");
                summary.append(tab);
                summary.append("' with ");
                let count = decimal_string(priority_order.len() as u64);
                summary.append(count.as_str());
                summary.append(" priority tiers");
                if frame_budget_degraded {
                    summary.append(", frame budget degraded");
                }
                if stale {
                    summary.append(", stale interaction epoch detected");
                }
                assert(summary@ =~= viewport_summary(tab@, frame_budget_degraded, stale));
            },
            SchedulerReportKind::Interaction => {
                summary = String::from_str("interaction ack for tab '");
                summary.append(tab);
                summary.append("' with latency ");
                match interaction_latency_ms {
                    Some(v) => {
                        let digits = decimal_string(v);
                        summary.append(digits.as_str());
                        summary.append("ms");
                    },
                    None => {
                        summary.append("unknown");
                    },
                }
                if frame_budget_degraded {
                    summary.append(", frame budget degraded");
                }
                assert(summary@ =~= interaction_summary(
                    tab@,
                    interaction_latency_ms,
                    frame_budget_degraded,
                ));
            },
        }
        let visible_range = signal.visible_range;
        SchedulerReportAck {
            accepted: true,
            report_kind,
            active_tab_id: signal.active_tab_id,
            interaction_epoch: signal.interaction_epoch,
            visible_range,
            priority_order,
            interaction_latency_ms,
            frame_budget_degraded,
            stale_interaction_epoch: stale,
            tracked_interaction_epoch: kept_epoch,
            summary,
        }
    }

    /// Answers a viewport report at time `now_ms`: it is over the frame
    /// budget when scrolling or when 128 or more rows are visible; that
    /// verdict is logged, the tab's epoch recorded, and the current priority
    /// order returned.
    pub fn summarize_viewport_state_at(
        &mut self,
        log: &mut PerformanceLog,
        signal: SchedulerSignal,
        now_ms: u64,
    ) -> (ack: SchedulerReportAck)
        requires
            old(self).wf(),
        ensures
            final(self).wf(),
            final(self)@ == old(self)@.insert(signal.active_tab_id@, epoch_after(old(self)@, signal)),
            final(log)@.len() == old(log)@.len() + 1,
            final(log)@.take(old(log)@.len() as int) == old(log)@,
            is_frame_sample(
                final(log)@.last(),
                signal.active_tab_id@,
                signal.interaction_epoch,
                viewport_degraded(signal),
            ),
            is_ack(
                ack,
                signal,
                SchedulerReportKind::Viewport,
                latency_at(signal, now_ms),
                viewport_degraded(signal),
                signal.interaction_epoch < epoch_before(old(self)@, signal.active_tab_id@),
                epoch_after(old(self)@, signal),
            ),
    {
        let degraded = signal.is_scrolling || match signal.visible_span() {
            Some(span) => span >= 128,
            None => false,
        };
        let latency = signal.interaction_latency_ms(now_ms);
        self.summarize_report(log, signal, SchedulerReportKind::Viewport, latency, degraded)
    }

    /// Answers an interaction report at time `now_ms`: the latency since
    /// the last input, when known, is logged first; it is over the frame
    /// budget exactly while scrolling.
    pub fn summarize_interaction_state_at(
        &mut self,
        log: &mut PerformanceLog,
        signal: SchedulerSignal,
        now_ms: u64,
    ) -> (ack: SchedulerReportAck)
        requires
            old(self).wf(),
        ensures
            final(self).wf(),
            final(self)@ == old(self)@.insert(signal.active_tab_id@, epoch_after(old(self)@, signal)),
            latency_at(signal, now_ms) is None ==> final(log)@.len() == old(log)@.len() + 1,
            latency_at(signal, now_ms) matches Some(v) ==> final(log)@.len() == old(log)@.len() + 2
                && is_latency_sample(
                final(log)@[old(log)@.len() as int],
                signal.active_tab_id@,
                signal.interaction_epoch,
                v,
            ),
            final(log)@.take(old(log)@.len() as int) == old(log)@,
            is_frame_sample(
                final(log)@.last(),
                signal.active_tab_id@,
                signal.interaction_epoch,
                signal.is_scrolling,
            ),
            is_ack(
                ack,
                signal,
                SchedulerReportKind::Interaction,
                latency_at(signal, now_ms),
                signal.is_scrolling,
                signal.interaction_epoch < epoch_before(old(self)@, signal.active_tab_id@),
                epoch_after(old(self)@, signal),
            ),
    {
        let latency = signal.interaction_latency_ms(now_ms);
        let ghost log0 = log@;
        if let Some(v) = latency {
            log.record_interaction_latency_ms(
                signal.active_tab_id.as_str(),
                signal.interaction_epoch,
                v,
            );
        }
        let ghost log1 = log@;
        let degraded = signal.is_scrolling;
        let ack = self.summarize_report(log, signal, SchedulerReportKind::Interaction, latency, degraded);
        proof {
            assert(log@.take(log1.len() as int) == log1);
            assert(log@.take(log0.len() as int) =~= log1.take(log0.len() as int));
            if latency is Some {
                assert(log1.take(log0.len() as int) =~= log0);
                assert(log@[log0.len() as int] == log@.take(log1.len() as int)[log0.len() as int]);
            } else {
                assert(log1 =~= log0);
            }
        }
        ack
    }

    /// Answers a viewport report (see `summarize_viewport_state_at`) at the
    /// wall clock's current time.
    pub fn summarize_viewport_state(&mut self, log: &mut PerformanceLog, signal: SchedulerSignal) -> (ack:
        SchedulerReportAck)
        requires
            old(self).wf(),
        ensures
            final(self).wf(),
            final(self)@ == old(self)@.insert(signal.active_tab_id@, epoch_after(old(self)@, signal)),
            final(log)@.len() == old(log)@.len() + 1,
            final(log)@.take(old(log)@.len() as int) == old(log)@,
            is_frame_sample(
                final(log)@.last(),
                signal.active_tab_id@,
                signal.interaction_epoch,
                viewport_degraded(signal),
            ),
            exists|now: u64|
                #![trigger latency_at(signal, now)]
                is_ack(
                    ack,
                    signal,
                    SchedulerReportKind::Viewport,
                    latency_at(signal, now),
                    viewport_degraded(signal),
                    signal.interaction_epoch < epoch_before(old(self)@, signal.active_tab_id@),
                    epoch_after(old(self)@, signal),
                ),
    {
        let now = now_ms();
        self.summarize_viewport_state_at(log, signal, now)
    }

    /// Answers an interaction report (see `summarize_interaction_state_at`)
    /// at the wall clock's current time.
    pub fn summarize_interaction_state(&mut self, log: &mut PerformanceLog, signal: SchedulerSignal) -> (ack:
        SchedulerReportAck)
        requires
            old(self).wf(),
        ensures
            final(self).wf(),
            final(self)@ == old(self)@.insert(signal.active_tab_id@, epoch_after(old(self)@, signal)),
            final(log)@.take(old(log)@.len() as int) == old(log)@,
            signal.last_input_at_ms is None ==> final(log)@.len() == old(log)@.len() + 1,
            signal.last_input_at_ms is Some ==> final(log)@.len() == old(log)@.len() + 2,
            is_frame_sample(
                final(log)@.last(),
                signal.active_tab_id@,
                signal.interaction_epoch,
                signal.is_scrolling,
            ),
            exists|now: u64|
                #![trigger latency_at(signal, now)]
                is_ack(
                    ack,
                    signal,
                    SchedulerReportKind::Interaction,
                    latency_at(signal, now),
                    signal.is_scrolling,
                    signal.interaction_epoch < epoch_before(old(self)@, signal.active_tab_id@),
                    epoch_after(old(self)@, signal),
                ) && (latency_at(signal, now) matches Some(v) ==> is_latency_sample(
                    final(log)@[old(log)@.len() as int],
                    signal.active_tab_id@,
                    signal.interaction_epoch,
                    v,
                )),
    {
        let now = now_ms();
        self.summarize_interaction_state_at(log, signal, now)
    }
}

} // verus!
