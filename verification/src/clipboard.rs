use vstd::prelude::*;
use crate::observability::now_ms;
use crate::error::{AppError, ErrorCode};
use crate::runtime::RuntimeGuard;
use crate::text::{clone_strings, decimal_string, lemma_stamps_differ, stamp, str_eq};

verus! {

/// What a paste of the operation does with its sources.
#[derive(Clone, Copy, Debug, PartialEq, Eq, Structural)]
pub enum ClipOpType {
    Copy,
    Cut,
}

/// Where a clipboard operation is in its life.
#[derive(Clone, Copy, Debug, PartialEq, Eq, Structural)]
pub enum ClipOpStatus {
    Active,
    Pasted,
    Invalidated,
}

/// A copy or cut waiting on the clipboard.
#[derive(Clone, Debug)]
pub struct ClipOperation {
    pub operation_id: String,
    pub source_paths: Vec<String>,
    pub op_type: ClipOpType,
    pub source_tab_id: String,
    pub created_at: i64,
    pub status: ClipOpStatus,
}

/// `a` and `b` hold the same values.
pub open spec fn same_clip_op(a: ClipOperation, b: ClipOperation) -> bool {
    &&& a.operation_id@ == b.operation_id@
    &&& a.source_paths@ == b.source_paths@
    &&& a.op_type == b.op_type
    &&& a.source_tab_id@ == b.source_tab_id@
    &&& a.created_at == b.created_at
    &&& a.status == b.status
}

impl ClipOperation {
    /// A copy of the operation.
    pub fn duplicate(&self) -> (r: ClipOperation)
        ensures
            same_clip_op(r, *self),
    {
        ClipOperation {
            operation_id: self.operation_id.clone(),
            source_paths: clone_strings(&self.source_paths),
            op_type: self.op_type,
            source_tab_id: self.source_tab_id.clone(),
            created_at: self.created_at,
            status: self.status,
        }
    }
}

/// The identifier of the operation made at `ts` (ms since the epoch) as
/// the `seq`-th of the registry: `clip-{ts}-{seq}`.
pub open spec fn clip_id(ts: u64, seq: u64) -> Seq<char> {
    stamp("clip-"@, ts, seq)
}

/// The operation type a request names: `"cut"` is a cut, anything else a copy.
pub open spec fn clip_type_of(name: Seq<char>) -> ClipOpType {
    if name == "cut"@ {
        ClipOpType::Cut
    } else {
        ClipOpType::Copy
    }
}

/// The sequence counter after `n` (wrapping at the top of `u64`).
pub open spec fn next_counter(n: u64) -> u64 {
    if n == u64::MAX {
        0
    } else {
        (n + 1) as u64
    }
}

/// Some operation in `s` has identifier `id`.
pub open spec fn holds_clip(s: Seq<ClipOperation>, id: Seq<char>) -> bool {
    exists|i: int| 0 <= i < s.len() && s[i].operation_id@ == id
}

/// No two operations in `s` share an identifier.
pub open spec fn distinct_clip_ids(s: Seq<ClipOperation>) -> bool {
    forall|i: int, j: int|
        0 <= i < s.len() && 0 <= j < s.len() && i != j ==> s[i].operation_id@ != s[j].operation_id@
}

/// The operation of `s` with identifier `id`, if there is one.
pub open spec fn clip_lookup(s: Seq<ClipOperation>, id: Seq<char>) -> Option<ClipOperation> {
    if holds_clip(s, id) {
        Some(s[choose|i: int| 0 <= i < s.len() && s[i].operation_id@ == id])
    } else {
        None
    }
}

/// `op` is the operation just made from these arguments.
pub open spec fn is_fresh_clip(
    op: ClipOperation,
    id: Seq<char>,
    sources: Seq<String>,
    op_type: Seq<char>,
    tab: Seq<char>,
    now: u64,
) -> bool {
    &&& op.operation_id@ == id
    &&& op.source_paths@ == sources
    &&& op.op_type == clip_type_of(op_type)
    &&& op.source_tab_id@ == tab
    &&& op.created_at == now as i64
    &&& op.status == ClipOpStatus::Active
}

/// `after` is `before` without its operation `id` (unchanged if there is none).
pub open spec fn drops_clip(before: Seq<ClipOperation>, after: Seq<ClipOperation>, id: Seq<char>) -> bool {
    if holds_clip(before, id) {
        exists|i: int|
            0 <= i < before.len() && before[i].operation_id@ == id && after == before.remove(i)
    } else {
        after == before
    }
}

/// `after` is `before` with the status of its operation `id` set to `status`
/// (unchanged if there is none).
pub open spec fn restates_clip(
    before: Seq<ClipOperation>,
    after: Seq<ClipOperation>,
    id: Seq<char>,
    status: ClipOpStatus,
) -> bool {
    if holds_clip(before, id) {
        exists|i: int|
            0 <= i < before.len() && before[i].operation_id@ == id && after == before.update(
                i,
                ClipOperation { status: status, ..before[i] },
            )
    } else {
        after == before
    }
}

/// With distinct identifiers, the operation at `i` is the one found by its
/// identifier.
pub proof fn lemma_clip_lookup_at(s: Seq<ClipOperation>, i: int)
    requires
        distinct_clip_ids(s),
        0 <= i < s.len(),
    ensures
        clip_lookup(s, s[i].operation_id@) == Some(s[i]),
{
    let id = s[i].operation_id@;
    assert(holds_clip(s, id));
    let j = choose|j: int| 0 <= j < s.len() && s[j].operation_id@ == id;
    assert(j == i);
}

proof fn lemma_remove_keeps_distinct(s: Seq<ClipOperation>, i: int)
    requires
        distinct_clip_ids(s),
        0 <= i < s.len(),
    ensures
        distinct_clip_ids(s.remove(i)),
        !holds_clip(s.remove(i), s[i].operation_id@),
        forall|k: int|
            0 <= k < s.len() && k != i ==> #[trigger] s[k].operation_id@ != s[i].operation_id@,
{
    let r = s.remove(i);
    s.remove_ensures(i);
    assert forall|a: int, b: int|
        0 <= a < r.len() && 0 <= b < r.len() && a != b implies r[a].operation_id@
        != r[b].operation_id@ by {
        let a2 = if a < i {
            a
        } else {
            a + 1
        };
        let b2 = if b < i {
            b
        } else {
            b + 1
        };
        assert(r[a] == s[a2]);
        assert(r[b] == s[b2]);
    }
    assert forall|a: int| 0 <= a < r.len() implies r[a].operation_id@ != s[i].operation_id@ by {
        let a2 = if a < i {
            a
        } else {
            a + 1
        };
        assert(r[a] == s[a2]);
    }
}

/// Registering an operation makes it the one found under its identifier,
/// active and holding the given sources, type and tab, and leaves every other
/// identifier as it was. On operations all numbered below the counter, the
/// identifier the counter stamps named none of them, and nothing is
/// replaced.
pub proof fn law_clip_create_then_get(
    before: Seq<ClipOperation>,
    after: Seq<ClipOperation>,
    id: Seq<char>,
    sources: Seq<String>,
    op_type: Seq<char>,
    tab: Seq<char>,
    now: u64,
    counter: u64,
)
    requires
        distinct_clip_ids(before),
        distinct_clip_ids(after),
        after.len() >= 1,
        is_fresh_clip(after.last(), id, sources, op_type, tab, now),
        drops_clip(before, after.drop_last(), id),
    ensures
        clip_lookup(after, id) matches Some(op) && is_fresh_clip(op, id, sources, op_type, tab, now),
        forall|k: Seq<char>| k != id ==> #[trigger] clip_lookup(after, k) == clip_lookup(before, k),
        clip_ids_below(before, counter) && id == clip_id(now, counter) ==> !holds_clip(before, id)
            && after.drop_last() == before,
{
    if clip_ids_below(before, counter) && id == clip_id(now, counter) {
        law_clip_next_id_is_fresh(before, counter, now);
    }
    lemma_clip_lookup_at(after, after.len() - 1);
    let kept = after.drop_last();
    assert(distinct_clip_ids(kept));
    assert forall|k: Seq<char>| k != id implies #[trigger] clip_lookup(after, k) == clip_lookup(
        before,
        k,
    ) by {
        lemma_drop_keeps_others(before, kept, id, k);
        if holds_clip(kept, k) {
            let j = choose|j: int| 0 <= j < kept.len() && kept[j].operation_id@ == k;
            lemma_clip_lookup_at(kept, j);
            lemma_clip_lookup_at(after, j);
        } else {
            assert forall|j: int| 0 <= j < after.len() implies after[j].operation_id@ != k by {
                if j < kept.len() {
                    assert(after[j] == kept[j]);
                }
            }
        }
    }
}

proof fn lemma_drop_keeps_others(
    before: Seq<ClipOperation>,
    after: Seq<ClipOperation>,
    id: Seq<char>,
    k: Seq<char>,
)
    requires
        distinct_clip_ids(before),
        drops_clip(before, after, id),
        k != id,
    ensures
        distinct_clip_ids(after),
        !holds_clip(after, id),
        clip_lookup(after, k) == clip_lookup(before, k),
{
    if holds_clip(before, id) {
        let i = choose|i: int|
            0 <= i < before.len() && before[i].operation_id@ == id && after == before.remove(i);
        lemma_remove_keeps_distinct(before, i);
        before.remove_ensures(i);
        if holds_clip(before, k) {
            let j = choose|j: int| 0 <= j < before.len() && before[j].operation_id@ == k;
            assert(j != i);
            let j2 = if j < i {
                j
            } else {
                j - 1
            };
            assert(after[j2] == before[j]);
            lemma_clip_lookup_at(before, j);
            lemma_clip_lookup_at(after, j2);
        } else {
            assert forall|a: int| 0 <= a < after.len() implies after[a].operation_id@ != k by {
                let a2 = if a < i {
                    a
                } else {
                    a + 1
                };
                assert(after[a] == before[a2]);
            }
        }
    }
}

/// After a delete, nothing is found under the identifier, and every other
/// identifier finds what it found before.
pub proof fn law_clip_delete_then_get(before: Seq<ClipOperation>, after: Seq<ClipOperation>, id: Seq<char>)
    requires
        distinct_clip_ids(before),
        drops_clip(before, after, id),
    ensures
        clip_lookup(after, id) is None,
        forall|k: Seq<char>| k != id ==> #[trigger] clip_lookup(after, k) == clip_lookup(before, k),
{
    if holds_clip(before, id) {
        let i = choose|i: int|
            0 <= i < before.len() && before[i].operation_id@ == id && after == before.remove(i);
        lemma_remove_keeps_distinct(before, i);
    }
    assert forall|k: Seq<char>| k != id implies #[trigger] clip_lookup(after, k) == clip_lookup(
        before,
        k,
    ) by {
        lemma_drop_keeps_others(before, after, id, k);
    }
}

/// After a status change, the operation under the identifier is the one
/// found before with the new status, and every other identifier finds what
/// it found before.
pub proof fn law_clip_restate_then_get(
    before: Seq<ClipOperation>,
    after: Seq<ClipOperation>,
    id: Seq<char>,
    status: ClipOpStatus,
)
    requires
        distinct_clip_ids(before),
        restates_clip(before, after, id, status),
    ensures
        clip_lookup(after, id) == match clip_lookup(before, id) {
            Some(op) => Some(ClipOperation { status: status, ..op }),
            None => None,
        },
        forall|k: Seq<char>| k != id ==> #[trigger] clip_lookup(after, k) == clip_lookup(before, k),
{
    if holds_clip(before, id) {
        let i = choose|i: int|
            0 <= i < before.len() && before[i].operation_id@ == id && after == before.update(
                i,
                ClipOperation { status: status, ..before[i] },
            );
        assert(distinct_clip_ids(after)) by {
            assert forall|a: int, b: int|
                0 <= a < after.len() && 0 <= b < after.len() && a != b implies after[a].operation_id@
                != after[b].operation_id@ by {
                assert(after[a].operation_id@ == before[a].operation_id@);
                assert(after[b].operation_id@ == before[b].operation_id@);
            }
        }
        lemma_clip_lookup_at(before, i);
        lemma_clip_lookup_at(after, i);
        assert forall|k: Seq<char>| k != id implies #[trigger] clip_lookup(after, k) == clip_lookup(
            before,
            k,
        ) by {
            if holds_clip(before, k) {
                let j = choose|j: int| 0 <= j < before.len() && before[j].operation_id@ == k;
                lemma_clip_lookup_at(before, j);
                lemma_clip_lookup_at(after, j);
            } else {
                assert forall|a: int| 0 <= a < after.len() implies after[a].operation_id@ != k by {
                    assert(after[a].operation_id@ == before[a].operation_id@);
                }
            }
        }
    }
}

/// Every operation in `s` is named by a stamp numbered below `counter`.
pub open spec fn clip_ids_below(s: Seq<ClipOperation>, counter: u64) -> bool {
    forall|i: int|
        #![trigger s[i]]
        0 <= i < s.len() ==> exists|t: u64, n: u64|
            #![trigger clip_id(t, n)]
            n < counter && s[i].operation_id@ == clip_id(t, n)
}

/// Law: while every registered operation is numbered below the counter, the
/// identifier the counter stamps next, at whatever time, names none of them.
pub proof fn law_clip_next_id_is_fresh(s: Seq<ClipOperation>, counter: u64, now: u64)
    requires
        clip_ids_below(s, counter),
    ensures
        !holds_clip(s, clip_id(now, counter)),
{
    if holds_clip(s, clip_id(now, counter)) {
        let i = choose|i: int| 0 <= i < s.len() && s[i].operation_id@ == clip_id(now, counter);
        let (t, n) = choose|t: u64, n: u64|
            #![trigger clip_id(t, n)]
            n < counter && s[i].operation_id@ == clip_id(t, n);
        lemma_stamps_differ("clip-"@, t, n, now, counter);
    }
}

proof fn lemma_below_after_drop(before: Seq<ClipOperation>, after: Seq<ClipOperation>, id: Seq<char>, c: u64)
    requires
        clip_ids_below(before, c),
        drops_clip(before, after, id),
    ensures
        clip_ids_below(after, c),
{
    if holds_clip(before, id) {
        let i = choose|i: int|
            0 <= i < before.len() && before[i].operation_id@ == id && after == before.remove(i);
        assert forall|j: int| #![trigger after[j]] 0 <= j < after.len() implies exists|t: u64, n: u64|
            #![trigger clip_id(t, n)]
            n < c && after[j].operation_id@ == clip_id(t, n) by {
            if j < i {
                assert(after[j] == before[j]);
            } else {
                assert(after[j] == before[j + 1]);
            }
        }
    }
}

proof fn lemma_below_after_restate(
    before: Seq<ClipOperation>,
    after: Seq<ClipOperation>,
    id: Seq<char>,
    status: ClipOpStatus,
    c: u64,
)
    requires
        clip_ids_below(before, c),
        restates_clip(before, after, id, status),
    ensures
        clip_ids_below(after, c),
{
    if holds_clip(before, id) {
        let i = choose|i: int|
            0 <= i < before.len() && before[i].operation_id@ == id && after == before.update(
                i,
                ClipOperation { status: status, ..before[i] },
            );
        assert forall|j: int| #![trigger after[j]] 0 <= j < after.len() implies exists|t: u64, n: u64|
            #![trigger clip_id(t, n)]
            n < c && after[j].operation_id@ == clip_id(t, n) by {
            assert(after[j].operation_id == before[j].operation_id);
        }
    }
}

proof fn lemma_below_after_create(
    before: Seq<ClipOperation>,
    after: Seq<ClipOperation>,
    c: u64,
    now: u64,
)
    requires
        clip_ids_below(before, c),
        c < u64::MAX,
        after.len() >= 1,
        after.last().operation_id@ == clip_id(now, c),
        drops_clip(before, after.drop_last(), clip_id(now, c)),
    ensures
        clip_ids_below(after, (c + 1) as u64),
{
    lemma_below_after_drop(before, after.drop_last(), clip_id(now, c), c);
    let kept = after.drop_last();
    assert forall|j: int| #![trigger after[j]] 0 <= j < after.len() implies exists|t: u64, n: u64|
        #![trigger clip_id(t, n)]
        n < c + 1 && after[j].operation_id@ == clip_id(t, n) by {
        if j < kept.len() {
            assert(after[j] == kept[j]);
            let (t, n) = choose|t: u64, n: u64|
                #![trigger clip_id(t, n)]
                n < c && kept[j].operation_id@ == clip_id(t, n);
            assert(n < c + 1 && after[j].operation_id@ == clip_id(t, n));
        } else {
            assert(after[j].operation_id@ == clip_id(now, c));
        }
    }
}

/// The clipboard operations of a session, keyed by their identifiers.
pub struct ClipboardRegistry {
    ops: Vec<ClipOperation>,
    next_seq: u64,
    wrapped: Ghost<bool>,
}

impl View for ClipboardRegistry {
    type V = Seq<ClipOperation>;

    closed spec fn view(&self) -> Seq<ClipOperation> {
        self.ops@
    }
}

impl ClipboardRegistry {
    /// The registry invariant: identifiers are unique and, until the
    /// counter has wrapped round, every one was numbered below it.
    pub open spec fn wf(&self) -> bool {
        distinct_clip_ids(self@) && (!self.has_wrapped() ==> clip_ids_below(self@, self.counter()))
    }

    /// The sequence number the next operation gets.
    pub closed spec fn counter(&self) -> u64 {
        self.next_seq
    }

    /// Whether the counter has wrapped round from `u64::MAX` to 0.
    pub closed spec fn has_wrapped(&self) -> bool {
        self.wrapped@
    }

    /// An empty registry whose first operation is numbered 1.
    pub fn new() -> (r: ClipboardRegistry)
        ensures
            r.wf(),
            r@ == Seq::<ClipOperation>::empty(),
            r.counter() == 1,
            !r.has_wrapped(),
    {
        ClipboardRegistry { ops: Vec::new(), next_seq: 1, wrapped: Ghost(false) }
    }

    fn position(&self, op_id: &str) -> (r: Option<usize>)
        ensures
            match r {
                Some(i) => i < self@.len() && self@[i as int].operation_id@ == op_id@,
                None => !holds_clip(self@, op_id@),
            },
    {
        let mut i: usize = 0;
        while i < self.ops.len()
            invariant
                i <= self.ops@.len(),
                forall|j: int| 0 <= j < i ==> self.ops@[j].operation_id@ != op_id@,
            decreases self.ops@.len() - i,
        {
            if str_eq(self.ops[i].operation_id.as_str(), op_id) {
                return Some(i);
            }
            i = i + 1;
        }
        None
    }

    /// Registers a copy (`op_type` anything but `"cut"`) or a cut of
    /// `sources` from tab `tab_id`, made at `now` (ms since the epoch), and
    /// returns its identifier `clip-{now}-{n}`, `n` being the registry's
    /// counter. An operation already under that identifier is replaced.
    pub fn create_operation_at(&mut self, sources: Vec<String>, op_type: &str, tab_id: &str, now: u64) -> (id:
        String)
        requires
            old(self).wf(),
        ensures
            final(self).wf(),
            id@ == clip_id(now, old(self).counter()),
            final(self).counter() == next_counter(old(self).counter()),
            final(self)@.len() >= 1,
            is_fresh_clip(final(self)@.last(), id@, sources@, op_type@, tab_id@, now),
            drops_clip(old(self)@, final(self)@.drop_last(), id@),
            !old(self).has_wrapped() ==> !holds_clip(old(self)@, id@),
            !old(self).has_wrapped() ==> final(self)@.drop_last() == old(self)@,
            final(self).has_wrapped() == (old(self).has_wrapped() || old(self).counter() == u64::MAX),
    {
        let ghost before = self.ops@;
        let seq = self.next_seq;
        self.next_seq = if seq == u64::MAX {
            0
        } else {
            seq + 1
        };
        proof {
            self.wrapped@ = self.wrapped@ || seq == u64::MAX;
        }
        let mut id = String::from_str("clip-");
        let ts = decimal_string(now);
        id.append(ts.as_str());
        id.append("-");
        let n = decimal_string(seq);
        id.append(n.as_str());
        let kind = if str_eq(op_type, "cut") {
            ClipOpType::Cut
        } else {
            ClipOpType::Copy
        };
        let created_at: i64 = #[verifier::truncate] (now as i64);
        match self.position(id.as_str()) {
            Some(i) => {
                self.ops.remove(i);
                proof {
                    lemma_remove_keeps_distinct(before, i as int);
                }
            },
            None => {},
        }
        let ghost kept = self.ops@;
        let op = ClipOperation {
            operation_id: id.clone(),
            source_paths: sources,
            op_type: kind,
            source_tab_id: String::from_str(tab_id),
            created_at,
            status: ClipOpStatus::Active,
        };
        self.ops.push(op);
        assert(self.ops@.drop_last() =~= kept);
        proof {
            if clip_ids_below(before, seq) {
                law_clip_next_id_is_fresh(before, seq, now);
                if seq < u64::MAX {
                    lemma_below_after_create(before, self.ops@, seq, now);
                }
            }
        }
        id
    }

    /// Registers an operation as `create_operation_at` does, stamped with
    /// the wall clock's current time.
    pub fn create_operation(&mut self, sources: Vec<String>, op_type: &str, tab_id: &str) -> (id: String)
        requires
            old(self).wf(),
        ensures
            final(self).wf(),
            final(self).counter() == next_counter(old(self).counter()),
            final(self)@.len() >= 1,
            exists|now: u64|
                #![trigger clip_id(now, old(self).counter())]
                id@ == clip_id(now, old(self).counter()) && is_fresh_clip(
                    final(self)@.last(),
                    id@,
                    sources@,
                    op_type@,
                    tab_id@,
                    now,
                ),
            drops_clip(old(self)@, final(self)@.drop_last(), id@),
            !old(self).has_wrapped() ==> !holds_clip(old(self)@, id@),
            !old(self).has_wrapped() ==> final(self)@.drop_last() == old(self)@,
            final(self).has_wrapped() == (old(self).has_wrapped() || old(self).counter() == u64::MAX),
    {
        let now = now_ms();
        self.create_operation_at(sources, op_type, tab_id, now)
    }

    /// A copy of the operation `op_id`, if it is registered.
    pub fn get_operation(&self, op_id: &str) -> (r: Option<ClipOperation>)
        requires
            self.wf(),
        ensures
            r is Some == clip_lookup(self@, op_id@) is Some,
            r matches Some(o) ==> same_clip_op(o, clip_lookup(self@, op_id@)->0),
    {
        match self.position(op_id) {
            Some(i) => {
                proof {
                    lemma_clip_lookup_at(self@, i as int);
                }
                Some(self.ops[i].duplicate())
            },
            None => None,
        }
    }

    /// Forgets the operation `op_id`; nothing happens if there is none.
    pub fn delete_operation(&mut self, op_id: &str)
        requires
            old(self).wf(),
        ensures
            final(self).wf(),
            final(self).counter() == old(self).counter(),
            drops_clip(old(self)@, final(self)@, op_id@),
            final(self).has_wrapped() == old(self).has_wrapped(),
    {
        let ghost before = self.ops@;
        match self.position(op_id) {
            Some(i) => {
                self.ops.remove(i);
                proof {
                    lemma_remove_keeps_distinct(before, i as int);
                }
            },
            None => {},
        }
        proof {
            if clip_ids_below(before, self.next_seq) {
                lemma_below_after_drop(before, self.ops@, op_id@, self.next_seq);
            }
        }
    }

    fn set_status(&mut self, op_id: &str, status: ClipOpStatus)
        requires
            old(self).wf(),
        ensures
            final(self).wf(),
            final(self).counter() == old(self).counter(),
            restates_clip(old(self)@, final(self)@, op_id@, status),
            final(self).has_wrapped() == old(self).has_wrapped(),
    {
        let ghost before = self.ops@;
        match self.position(op_id) {
            Some(i) => {
                let mut op = self.ops.remove(i);
                op.status = status;
                let ghost changed = op;
                self.ops.insert(i, op);
                assert(self.ops@ =~= before.update(i as int, changed));
                assert(changed == ClipOperation { status: status, ..before[i as int] });
                assert forall|a: int, b: int|
                    0 <= a < self.ops@.len() && 0 <= b < self.ops@.len() && a != b implies
                    self.ops@[a].operation_id@ != self.ops@[b].operation_id@ by {
                    assert(self.ops@[a].operation_id@ == before[a].operation_id@);
                    assert(self.ops@[b].operation_id@ == before[b].operation_id@);
                }
            },
            None => {},
        }
        proof {
            if clip_ids_below(before, self.next_seq) {
                lemma_below_after_restate(before, self.ops@, op_id@, status, self.next_seq);
            }
        }
    }

    /// Marks the operation `op_id` as invalidated; nothing happens if there
    /// is none.
    pub fn invalidate_operation(&mut self, op_id: &str)
        requires
            old(self).wf(),
        ensures
            final(self).wf(),
            final(self).counter() == old(self).counter(),
            restates_clip(old(self)@, final(self)@, op_id@, ClipOpStatus::Invalidated),
            final(self).has_wrapped() == old(self).has_wrapped(),
    {
        self.set_status(op_id, ClipOpStatus::Invalidated);
    }

    /// Marks the operation `op_id` as pasted; nothing happens if there is
    /// none.
    pub fn mark_pasted(&mut self, op_id: &str)
        requires
            old(self).wf(),
        ensures
            final(self).wf(),
            final(self).counter() == old(self).counter(),
            restates_clip(old(self)@, final(self)@, op_id@, ClipOpStatus::Pasted),
            final(self).has_wrapped() == old(self).has_wrapped(),
    {
        self.set_status(op_id, ClipOpStatus::Pasted);
    }

    /// Copies of all registered operations.
    pub fn list_operations(&self) -> (r: Vec<ClipOperation>)
        ensures
            r@.len() == self@.len(),
            forall|i: int| 0 <= i < r@.len() ==> same_clip_op(#[trigger] r@[i], self@[i]),
    {
        let mut r: Vec<ClipOperation> = Vec::new();
        for i in 0..self.ops.len()
            invariant
                r@.len() == i,
                forall|j: int| 0 <= j < i ==> same_clip_op(#[trigger] r@[j], self.ops@[j]),
        {
            r.push(self.ops[i].duplicate());
        }
        r
    }
}

} // verus!

verus! {

/// What a paste of operation `operation_id` is refused with, if anything:
/// an unknown operation, one no longer active, or a cut without a
/// confirmation token.
pub open spec fn paste_refusal(
    ops: Seq<ClipOperation>,
    operation_id: Seq<char>,
    confirmed: bool,
) -> Option<(ErrorCode, Seq<char>)> {
    match clip_lookup(ops, operation_id) {
        None => Some((ErrorCode::PathNotFound, "剪贴板操作不存在或已过期"@)),
        Some(op) => if op.status != ClipOpStatus::Active {
            Some((ErrorCode::InternalError, "此剪贴板操作已被使用或已失效，不能再次粘贴"@))
        } else if op.op_type == ClipOpType::Cut && !confirmed {
            Some((ErrorCode::ConfirmationRequired, "此操作需要确认"@))
        } else {
            None
        },
    }
}

impl ClipboardRegistry {
    /// Decides whether operation `operation_id` may be pasted (see
    /// `paste_refusal`) and, if so, returns a copy of it. A missing token
    /// on a cut gives the retryable `ConfirmationRequired` error; the other
    /// refusals are not retryable.
    pub fn check_paste(&self, operation_id: &str, confirmation_token: Option<String>) -> (r: Result<
        ClipOperation,
        AppError,
    >)
        requires
            self.wf(),
        ensures
            match paste_refusal(self@, operation_id@, confirmation_token is Some) {
                None => r matches Ok(op) && same_clip_op(op, clip_lookup(self@, operation_id@)->0),
                Some((code, msg)) => r matches Err(e) && e.code == code && e.message@ == msg
                    && e.retryable == (code == ErrorCode::ConfirmationRequired)
                    && e.refresh_suggestion is None,
            },
    {
        let op = match self.get_operation(operation_id) {
            Some(op) => op,
            None => {
                return Err(
                    AppError::new(ErrorCode::PathNotFound, String::from_str("剪贴板操作不存在或已过期")),
                );
            },
        };
        if op.status != ClipOpStatus::Active {
            return Err(
                AppError::new(
                    ErrorCode::InternalError,
                    String::from_str("此剪贴板操作已被使用或已失效，不能再次粘贴"),
                ),
            );
        }
        if op.op_type == ClipOpType::Cut {
            RuntimeGuard::check_confirmation(confirmation_token)?;
        }
        Ok(op)
    }
}

} // verus!

verus! {

/// The error for a source of a paste or drop that no longer exists.
pub fn missing_source_error(path: &str) -> (e: AppError)
    ensures
        crate::error::is_plain_error(e, ErrorCode::PathNotFound, "源路径不存在: "@ + path@),
{
    AppError::new(ErrorCode::PathNotFound, crate::text::join2("源路径不存在: ", path))
}

} // verus!

verus! {

/// Once pasted, an operation cannot be pasted again; once deleted, it is
/// not found.
pub proof fn law_pasted_operation_is_refused(
    before: Seq<ClipOperation>,
    pasted: Seq<ClipOperation>,
    deleted: Seq<ClipOperation>,
    id: Seq<char>,
    confirmed: bool,
)
    requires
        distinct_clip_ids(before),
        holds_clip(before, id),
        restates_clip(before, pasted, id, ClipOpStatus::Pasted),
        drops_clip(before, deleted, id),
    ensures
        paste_refusal(pasted, id, confirmed) == Some(
            (ErrorCode::InternalError, "此剪贴板操作已被使用或已失效，不能再次粘贴"@),
        ),
        paste_refusal(deleted, id, confirmed) == Some(
            (ErrorCode::PathNotFound, "剪贴板操作不存在或已过期"@),
        ),
{
    law_clip_restate_then_get(before, pasted, id, ClipOpStatus::Pasted);
    law_clip_delete_then_get(before, deleted, id);
}

} // verus!

verus! {

/// Only an active operation may be pasted: whenever a paste is let through,
/// the operation exists, is active, and, if it is a cut, was confirmed.
pub proof fn law_only_active_operations_paste(ops: Seq<ClipOperation>, id: Seq<char>, confirmed: bool)
    ensures
        paste_refusal(ops, id, confirmed) is None ==> (clip_lookup(ops, id) matches Some(op)
            && op.status == ClipOpStatus::Active && (op.op_type == ClipOpType::Cut ==> confirmed)),
        clip_lookup(ops, id) matches Some(op) && op.status != ClipOpStatus::Active ==> paste_refusal(
            ops,
            id,
            confirmed,
        ) is Some,
{
}

/// An invalidated operation is refused, confirmed or not, as a pasted one
/// is.
pub proof fn law_invalidated_operation_is_refused(
    before: Seq<ClipOperation>,
    after: Seq<ClipOperation>,
    id: Seq<char>,
    confirmed: bool,
)
    requires
        distinct_clip_ids(before),
        holds_clip(before, id),
        restates_clip(before, after, id, ClipOpStatus::Invalidated),
    ensures
        paste_refusal(after, id, confirmed) == Some(
            (ErrorCode::InternalError, "此剪贴板操作已被使用或已失效，不能再次粘贴"@),
        ),
{
    law_clip_restate_then_get(before, after, id, ClipOpStatus::Invalidated);
}

} // verus!
