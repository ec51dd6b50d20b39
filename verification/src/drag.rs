use vstd::prelude::*;
use crate::observability::now_ms;
use crate::error::{is_plain_error, AppError, ErrorCode};
use crate::text::{clone_strings, decimal_string, lemma_stamps_differ, stamp, str_eq};
use crate::normalize::{
    backslash_chars, backslashed, is_drive, parse_parts, parse_path_parts, split_backslash, split_bs,
};
use crate::path_safety::{ascii_upper, to_ascii_upper};

verus! {

/// What a drop of the operation does with its sources.
#[derive(Clone, Copy, Debug, PartialEq, Eq, Structural)]
pub enum DragOpType {
    Move,
    Copy,
}

/// Where a drag operation is in its life.
#[derive(Clone, Copy, Debug, PartialEq, Eq, Structural)]
pub enum DragOpStatus {
    Active,
    Dropped,
}

/// A drag in progress.
#[derive(Clone, Debug)]
pub struct DragOperation {
    pub operation_id: String,
    pub source_paths: Vec<String>,
    pub drag_type: DragOpType,
    pub source_tab_id: String,
    pub created_at: i64,
    pub status: DragOpStatus,
}

/// `a` and `b` hold the same values.
pub open spec fn same_drag_op(a: DragOperation, b: DragOperation) -> bool {
    &&& a.operation_id@ == b.operation_id@
    &&& a.source_paths@ == b.source_paths@
    &&& a.drag_type == b.drag_type
    &&& a.source_tab_id@ == b.source_tab_id@
    &&& a.created_at == b.created_at
    &&& a.status == b.status
}

impl DragOperation {
    /// A copy of the operation.
    pub fn duplicate(&self) -> (r: DragOperation)
        ensures
            same_drag_op(r, *self),
    {
        DragOperation {
            operation_id: self.operation_id.clone(),
            source_paths: clone_strings(&self.source_paths),
            drag_type: self.drag_type,
            source_tab_id: self.source_tab_id.clone(),
            created_at: self.created_at,
            status: self.status,
        }
    }
}

/// The identifier of the operation made at `ts` (ms since the epoch) as
/// the `seq`-th of the registry: `drag-{ts}-{seq}`.
pub open spec fn drag_id(ts: u64, seq: u64) -> Seq<char> {
    stamp("drag-"@, ts, seq)
}

/// The drag type a request names: `"copy"` is a copy, anything else a move.
pub open spec fn drag_type_of(name: Seq<char>) -> DragOpType {
    if name == "copy"@ {
        DragOpType::Copy
    } else {
        DragOpType::Move
    }
}

/// The sequence counter after `n` (wrapping at the top of `u64`).
pub open spec fn next_counter(n: u64) -> u64 {
    if n == u64::MAX {
        0
    } else {
        (n + 1) as u64
    }
}

/// Some operation in `s` has identifier `id`.
pub open spec fn holds_drag(s: Seq<DragOperation>, id: Seq<char>) -> bool {
    exists|i: int| 0 <= i < s.len() && s[i].operation_id@ == id
}

/// No two operations in `s` share an identifier.
pub open spec fn distinct_drag_ids(s: Seq<DragOperation>) -> bool {
    forall|i: int, j: int|
        0 <= i < s.len() && 0 <= j < s.len() && i != j ==> s[i].operation_id@ != s[j].operation_id@
}

/// The operation of `s` with identifier `id`, if there is one.
pub open spec fn drag_lookup(s: Seq<DragOperation>, id: Seq<char>) -> Option<DragOperation> {
    if holds_drag(s, id) {
        Some(s[choose|i: int| 0 <= i < s.len() && s[i].operation_id@ == id])
    } else {
        None
    }
}

/// `op` is the operation just made from these arguments.
pub open spec fn is_fresh_drag(
    op: DragOperation,
    id: Seq<char>,
    sources: Seq<String>,
    drag_type: Seq<char>,
    tab: Seq<char>,
    now: u64,
) -> bool {
    &&& op.operation_id@ == id
    &&& op.source_paths@ == sources
    &&& op.drag_type == drag_type_of(drag_type)
    &&& op.source_tab_id@ == tab
    &&& op.created_at == now as i64
    &&& op.status == DragOpStatus::Active
}

/// `after` is `before` without its operation `id` (unchanged if there is none).
pub open spec fn drops_drag(before: Seq<DragOperation>, after: Seq<DragOperation>, id: Seq<char>) -> bool {
    if holds_drag(before, id) {
        exists|i: int|
            0 <= i < before.len() && before[i].operation_id@ == id && after == before.remove(i)
    } else {
        after == before
    }
}

/// `after` is `before` with the status of its operation `id` set to `status`
/// (unchanged if there is none).
pub open spec fn restates_drag(
    before: Seq<DragOperation>,
    after: Seq<DragOperation>,
    id: Seq<char>,
    status: DragOpStatus,
) -> bool {
    if holds_drag(before, id) {
        exists|i: int|
            0 <= i < before.len() && before[i].operation_id@ == id && after == before.update(
                i,
                DragOperation { status: status, ..before[i] },
            )
    } else {
        after == before
    }
}

/// With distinct identifiers, the operation at `i` is the one found by its
/// identifier.
pub proof fn lemma_drag_lookup_at(s: Seq<DragOperation>, i: int)
    requires
        distinct_drag_ids(s),
        0 <= i < s.len(),
    ensures
        drag_lookup(s, s[i].operation_id@) == Some(s[i]),
{
    let id = s[i].operation_id@;
    assert(holds_drag(s, id));
    let j = choose|j: int| 0 <= j < s.len() && s[j].operation_id@ == id;
    assert(j == i);
}

proof fn lemma_remove_keeps_distinct(s: Seq<DragOperation>, i: int)
    requires
        distinct_drag_ids(s),
        0 <= i < s.len(),
    ensures
        distinct_drag_ids(s.remove(i)),
        !holds_drag(s.remove(i), s[i].operation_id@),
        forall|k: int|
            0 <= k < s.len() && k != i ==> #[trigger] s[k].operation_id@ != s[i].operation_id@,
{
    let r = s.remove(i);
    s.remove_ensures(i);
    assert forall|a: int, b: int|
        0 <= a < r.len() && 0 <= b < r.len() && a != b implies r[a].operation_id@
        != r[b].operation_id@ by {
        let a2 = if a < i {
            a
        } else {
            a + 1
        };
        let b2 = if b < i {
            b
        } else {
            b + 1
        };
        assert(r[a] == s[a2]);
        assert(r[b] == s[b2]);
    }
    assert forall|a: int| 0 <= a < r.len() implies r[a].operation_id@ != s[i].operation_id@ by {
        let a2 = if a < i {
            a
        } else {
            a + 1
        };
        assert(r[a] == s[a2]);
    }
}

/// Registering an operation makes it the one found under its identifier,
/// active and holding the given sources, type and tab, and leaves every other
/// identifier as it was. On operations all numbered below the counter, the
/// identifier the counter stamps named none of them, and nothing is
/// replaced.
pub proof fn law_drag_create_then_get(
    before: Seq<DragOperation>,
    after: Seq<DragOperation>,
    id: Seq<char>,
    sources: Seq<String>,
    drag_type: Seq<char>,
    tab: Seq<char>,
    now: u64,
    counter: u64,
)
    requires
        distinct_drag_ids(before),
        distinct_drag_ids(after),
        after.len() >= 1,
        is_fresh_drag(after.last(), id, sources, drag_type, tab, now),
        drops_drag(before, after.drop_last(), id),
    ensures
        drag_lookup(after, id) matches Some(op) && is_fresh_drag(op, id, sources, drag_type, tab, now),
        forall|k: Seq<char>| k != id ==> #[trigger] drag_lookup(after, k) == drag_lookup(before, k),
        drag_ids_below(before, counter) && id == drag_id(now, counter) ==> !holds_drag(before, id)
            && after.drop_last() == before,
{
    if drag_ids_below(before, counter) && id == drag_id(now, counter) {
        law_drag_next_id_is_fresh(before, counter, now);
    }
    lemma_drag_lookup_at(after, after.len() - 1);
    let kept = after.drop_last();
    assert(distinct_drag_ids(kept));
    assert forall|k: Seq<char>| k != id implies #[trigger] drag_lookup(after, k) == drag_lookup(
        before,
        k,
    ) by {
        lemma_drop_keeps_others(before, kept, id, k);
        if holds_drag(kept, k) {
            let j = choose|j: int| 0 <= j < kept.len() && kept[j].operation_id@ == k;
            lemma_drag_lookup_at(kept, j);
            lemma_drag_lookup_at(after, j);
        } else {
            assert forall|j: int| 0 <= j < after.len() implies after[j].operation_id@ != k by {
                if j < kept.len() {
                    assert(after[j] == kept[j]);
                }
            }
        }
    }
}

proof fn lemma_drop_keeps_others(
    before: Seq<DragOperation>,
    after: Seq<DragOperation>,
    id: Seq<char>,
    k: Seq<char>,
)
    requires
        distinct_drag_ids(before),
        drops_drag(before, after, id),
        k != id,
    ensures
        distinct_drag_ids(after),
        !holds_drag(after, id),
        drag_lookup(after, k) == drag_lookup(before, k),
{
    if holds_drag(before, id) {
        let i = choose|i: int|
            0 <= i < before.len() && before[i].operation_id@ == id && after == before.remove(i);
        lemma_remove_keeps_distinct(before, i);
        before.remove_ensures(i);
        if holds_drag(before, k) {
            let j = choose|j: int| 0 <= j < before.len() && before[j].operation_id@ == k;
            assert(j != i);
            let j2 = if j < i {
                j
            } else {
                j - 1
            };
            assert(after[j2] == before[j]);
            lemma_drag_lookup_at(before, j);
            lemma_drag_lookup_at(after, j2);
        } else {
            assert forall|a: int| 0 <= a < after.len() implies after[a].operation_id@ != k by {
                let a2 = if a < i {
                    a
                } else {
                    a + 1
                };
                assert(after[a] == before[a2]);
            }
        }
    }
}

/// After a delete, nothing is found under the identifier, and every other
/// identifier finds what it found before.
pub proof fn law_drag_delete_then_get(before: Seq<DragOperation>, after: Seq<DragOperation>, id: Seq<char>)
    requires
        distinct_drag_ids(before),
        drops_drag(before, after, id),
    ensures
        drag_lookup(after, id) is None,
        forall|k: Seq<char>| k != id ==> #[trigger] drag_lookup(after, k) == drag_lookup(before, k),
{
    if holds_drag(before, id) {
        let i = choose|i: int|
            0 <= i < before.len() && before[i].operation_id@ == id && after == before.remove(i);
        lemma_remove_keeps_distinct(before, i);
    }
    assert forall|k: Seq<char>| k != id implies #[trigger] drag_lookup(after, k) == drag_lookup(
        before,
        k,
    ) by {
        lemma_drop_keeps_others(before, after, id, k);
    }
}

/// After a status change, the operation under the identifier is the one
/// found before with the new status, and every other identifier finds what
/// it found before.
pub proof fn law_drag_restate_then_get(
    before: Seq<DragOperation>,
    after: Seq<DragOperation>,
    id: Seq<char>,
    status: DragOpStatus,
)
    requires
        distinct_drag_ids(before),
        restates_drag(before, after, id, status),
    ensures
        drag_lookup(after, id) == match drag_lookup(before, id) {
            Some(op) => Some(DragOperation { status: status, ..op }),
            None => None,
        },
        forall|k: Seq<char>| k != id ==> #[trigger] drag_lookup(after, k) == drag_lookup(before, k),
{
    if holds_drag(before, id) {
        let i = choose|i: int|
            0 <= i < before.len() && before[i].operation_id@ == id && after == before.update(
                i,
                DragOperation { status: status, ..before[i] },
            );
        assert(distinct_drag_ids(after)) by {
            assert forall|a: int, b: int|
                0 <= a < after.len() && 0 <= b < after.len() && a != b implies after[a].operation_id@
                != after[b].operation_id@ by {
                assert(after[a].operation_id@ == before[a].operation_id@);
                assert(after[b].operation_id@ == before[b].operation_id@);
            }
        }
        lemma_drag_lookup_at(before, i);
        lemma_drag_lookup_at(after, i);
        assert forall|k: Seq<char>| k != id implies #[trigger] drag_lookup(after, k) == drag_lookup(
            before,
            k,
        ) by {
            if holds_drag(before, k) {
                let j = choose|j: int| 0 <= j < before.len() && before[j].operation_id@ == k;
                lemma_drag_lookup_at(before, j);
                lemma_drag_lookup_at(after, j);
            } else {
                assert forall|a: int| 0 <= a < after.len() implies after[a].operation_id@ != k by {
                    assert(after[a].operation_id@ == before[a].operation_id@);
                }
            }
        }
    }
}

/// Every operation in `s` is named by a stamp numbered below `counter`.
pub open spec fn drag_ids_below(s: Seq<DragOperation>, counter: u64) -> bool {
    forall|i: int|
        #![trigger s[i]]
        0 <= i < s.len() ==> exists|t: u64, n: u64|
            #![trigger drag_id(t, n)]
            n < counter && s[i].operation_id@ == drag_id(t, n)
}

/// Law: while every registered operation is numbered below the counter, the
/// identifier the counter stamps next, at whatever time, names none of them.
pub proof fn law_drag_next_id_is_fresh(s: Seq<DragOperation>, counter: u64, now: u64)
    requires
        drag_ids_below(s, counter),
    ensures
        !holds_drag(s, drag_id(now, counter)),
{
    if holds_drag(s, drag_id(now, counter)) {
        let i = choose|i: int| 0 <= i < s.len() && s[i].operation_id@ == drag_id(now, counter);
        let (t, n) = choose|t: u64, n: u64|
            #![trigger drag_id(t, n)]
            n < counter && s[i].operation_id@ == drag_id(t, n);
        lemma_stamps_differ("drag-"@, t, n, now, counter);
    }
}

proof fn lemma_below_after_drop(before: Seq<DragOperation>, after: Seq<DragOperation>, id: Seq<char>, c: u64)
    requires
        drag_ids_below(before, c),
        drops_drag(before, after, id),
    ensures
        drag_ids_below(after, c),
{
    if holds_drag(before, id) {
        let i = choose|i: int|
            0 <= i < before.len() && before[i].operation_id@ == id && after == before.remove(i);
        assert forall|j: int| #![trigger after[j]] 0 <= j < after.len() implies exists|t: u64, n: u64|
            #![trigger drag_id(t, n)]
            n < c && after[j].operation_id@ == drag_id(t, n) by {
            if j < i {
                assert(after[j] == before[j]);
            } else {
                assert(after[j] == before[j + 1]);
            }
        }
    }
}

proof fn lemma_below_after_restate(
    before: Seq<DragOperation>,
    after: Seq<DragOperation>,
    id: Seq<char>,
    status: DragOpStatus,
    c: u64,
)
    requires
        drag_ids_below(before, c),
        restates_drag(before, after, id, status),
    ensures
        drag_ids_below(after, c),
{
    if holds_drag(before, id) {
        let i = choose|i: int|
            0 <= i < before.len() && before[i].operation_id@ == id && after == before.update(
                i,
                DragOperation { status: status, ..before[i] },
            );
        assert forall|j: int| #![trigger after[j]] 0 <= j < after.len() implies exists|t: u64, n: u64|
            #![trigger drag_id(t, n)]
            n < c && after[j].operation_id@ == drag_id(t, n) by {
            assert(after[j].operation_id == before[j].operation_id);
        }
    }
}

proof fn lemma_below_after_create(
    before: Seq<DragOperation>,
    after: Seq<DragOperation>,
    c: u64,
    now: u64,
)
    requires
        drag_ids_below(before, c),
        c < u64::MAX,
        after.len() >= 1,
        after.last().operation_id@ == drag_id(now, c),
        drops_drag(before, after.drop_last(), drag_id(now, c)),
    ensures
        drag_ids_below(after, (c + 1) as u64),
{
    lemma_below_after_drop(before, after.drop_last(), drag_id(now, c), c);
    let kept = after.drop_last();
    assert forall|j: int| #![trigger after[j]] 0 <= j < after.len() implies exists|t: u64, n: u64|
        #![trigger drag_id(t, n)]
        n < c + 1 && after[j].operation_id@ == drag_id(t, n) by {
        if j < kept.len() {
            assert(after[j] == kept[j]);
            let (t, n) = choose|t: u64, n: u64|
                #![trigger drag_id(t, n)]
                n < c && kept[j].operation_id@ == drag_id(t, n);
            assert(n < c + 1 && after[j].operation_id@ == drag_id(t, n));
        } else {
            assert(after[j].operation_id@ == drag_id(now, c));
        }
    }
}

/// The drag operations of a session, keyed by their identifiers.
pub struct DragRegistry {
    ops: Vec<DragOperation>,
    next_seq: u64,
    wrapped: Ghost<bool>,
}

impl View for DragRegistry {
    type V = Seq<DragOperation>;

    closed spec fn view(&self) -> Seq<DragOperation> {
        self.ops@
    }
}

impl DragRegistry {
    /// The registry invariant: identifiers are unique and, until the
    /// counter has wrapped round, every one was numbered below it.
    pub open spec fn wf(&self) -> bool {
        distinct_drag_ids(self@) && (!self.has_wrapped() ==> drag_ids_below(self@, self.counter()))
    }

    /// The sequence number the next operation gets.
    pub closed spec fn counter(&self) -> u64 {
        self.next_seq
    }

    /// Whether the counter has wrapped round from `u64::MAX` to 0.
    pub closed spec fn has_wrapped(&self) -> bool {
        self.wrapped@
    }

    /// An empty registry whose first operation is numbered 1.
    pub fn new() -> (r: DragRegistry)
        ensures
            r.wf(),
            r@ == Seq::<DragOperation>::empty(),
            r.counter() == 1,
            !r.has_wrapped(),
    {
        DragRegistry { ops: Vec::new(), next_seq: 1, wrapped: Ghost(false) }
    }

    fn position(&self, op_id: &str) -> (r: Option<usize>)
        ensures
            match r {
                Some(i) => i < self@.len() && self@[i as int].operation_id@ == op_id@,
                None => !holds_drag(self@, op_id@),
            },
    {
        let mut i: usize = 0;
        while i < self.ops.len()
            invariant
                i <= self.ops@.len(),
                forall|j: int| 0 <= j < i ==> self.ops@[j].operation_id@ != op_id@,
            decreases self.ops@.len() - i,
        {
            if str_eq(self.ops[i].operation_id.as_str(), op_id) {
                return Some(i);
            }
            i = i + 1;
        }
        None
    }

    /// Registers a copy (`drag_type` `"copy"`) or a move (anything else) of
    /// `sources` from tab `tab_id`, made at `now` (ms since the epoch), and
    /// returns its identifier `drag-{now}-{n}`, `n` being the registry's
    /// counter. An operation already under that identifier is replaced.
    pub fn create_operation_at(&mut self, sources: Vec<String>, drag_type: &str, tab_id: &str, now: u64) -> (id:
        String)
        requires
            old(self).wf(),
        ensures
            final(self).wf(),
            id@ == drag_id(now, old(self).counter()),
            final(self).counter() == next_counter(old(self).counter()),
            final(self)@.len() >= 1,
            is_fresh_drag(final(self)@.last(), id@, sources@, drag_type@, tab_id@, now),
            drops_drag(old(self)@, final(self)@.drop_last(), id@),
            !old(self).has_wrapped() ==> !holds_drag(old(self)@, id@),
            !old(self).has_wrapped() ==> final(self)@.drop_last() == old(self)@,
            final(self).has_wrapped() == (old(self).has_wrapped() || old(self).counter() == u64::MAX),
    {
        let ghost before = self.ops@;
        let seq = self.next_seq;
        self.next_seq = if seq == u64::MAX {
            0
        } else {
            seq + 1
        };
        proof {
            self.wrapped@ = self.wrapped@ || seq == u64::MAX;
        }
        let mut id = String::from_str("drag-");
        let ts = decimal_string(now);
        id.append(ts.as_str());
        id.append("-");
        let n = decimal_string(seq);
        id.append(n.as_str());
        let kind = if str_eq(drag_type, "copy") {
            DragOpType::Copy
        } else {
            DragOpType::Move
        };
        let created_at: i64 = #[verifier::truncate] (now as i64);
        match self.position(id.as_str()) {
            Some(i) => {
                self.ops.remove(i);
                proof {
                    lemma_remove_keeps_distinct(before, i as int);
                }
            },
            None => {},
        }
        let ghost kept = self.ops@;
        let op = DragOperation {
            operation_id: id.clone(),
            source_paths: sources,
            drag_type: kind,
            source_tab_id: String::from_str(tab_id),
            created_at,
            status: DragOpStatus::Active,
        };
        self.ops.push(op);
        assert(self.ops@.drop_last() =~= kept);
        proof {
            if drag_ids_below(before, seq) {
                law_drag_next_id_is_fresh(before, seq, now);
                if seq < u64::MAX {
                    lemma_below_after_create(before, self.ops@, seq, now);
                }
            }
        }
        id
    }

    /// Registers an operation as `create_operation_at` does, stamped with
    /// the wall clock's current time.
    pub fn create_operation(&mut self, sources: Vec<String>, drag_type: &str, tab_id: &str) -> (id: String)
        requires
            old(self).wf(),
        ensures
            final(self).wf(),
            final(self).counter() == next_counter(old(self).counter()),
            final(self)@.len() >= 1,
            exists|now: u64|
                #![trigger drag_id(now, old(self).counter())]
                id@ == drag_id(now, old(self).counter()) && is_fresh_drag(
                    final(self)@.last(),
                    id@,
                    sources@,
                    drag_type@,
                    tab_id@,
                    now,
                ),
            drops_drag(old(self)@, final(self)@.drop_last(), id@),
            !old(self).has_wrapped() ==> !holds_drag(old(self)@, id@),
            !old(self).has_wrapped() ==> final(self)@.drop_last() == old(self)@,
            final(self).has_wrapped() == (old(self).has_wrapped() || old(self).counter() == u64::MAX),
    {
        let now = now_ms();
        self.create_operation_at(sources, drag_type, tab_id, now)
    }

    /// A copy of the operation `op_id`, if it is registered.
    pub fn get_operation(&self, op_id: &str) -> (r: Option<DragOperation>)
        requires
            self.wf(),
        ensures
            r is Some == drag_lookup(self@, op_id@) is Some,
            r matches Some(o) ==> same_drag_op(o, drag_lookup(self@, op_id@)->0),
    {
        match self.position(op_id) {
            Some(i) => {
                proof {
                    lemma_drag_lookup_at(self@, i as int);
                }
                Some(self.ops[i].duplicate())
            },
            None => None,
        }
    }

    /// Forgets the operation `op_id`; nothing happens if there is none.
    pub fn delete_operation(&mut self, op_id: &str)
        requires
            old(self).wf(),
        ensures
            final(self).wf(),
            final(self).counter() == old(self).counter(),
            drops_drag(old(self)@, final(self)@, op_id@),
            final(self).has_wrapped() == old(self).has_wrapped(),
    {
        let ghost before = self.ops@;
        match self.position(op_id) {
            Some(i) => {
                self.ops.remove(i);
                proof {
                    lemma_remove_keeps_distinct(before, i as int);
                }
            },
            None => {},
        }
        proof {
            if drag_ids_below(before, self.next_seq) {
                lemma_below_after_drop(before, self.ops@, op_id@, self.next_seq);
            }
        }
    }

    fn set_status(&mut self, op_id: &str, status: DragOpStatus)
        requires
            old(self).wf(),
        ensures
            final(self).wf(),
            final(self).counter() == old(self).counter(),
            restates_drag(old(self)@, final(self)@, op_id@, status),
            final(self).has_wrapped() == old(self).has_wrapped(),
    {
        let ghost before = self.ops@;
        match self.position(op_id) {
            Some(i) => {
                let mut op = self.ops.remove(i);
                op.status = status;
                let ghost changed = op;
                self.ops.insert(i, op);
                assert(self.ops@ =~= before.update(i as int, changed));
                assert(changed == DragOperation { status: status, ..before[i as int] });
                assert forall|a: int, b: int|
                    0 <= a < self.ops@.len() && 0 <= b < self.ops@.len() && a != b implies
                    self.ops@[a].operation_id@ != self.ops@[b].operation_id@ by {
                    assert(self.ops@[a].operation_id@ == before[a].operation_id@);
                    assert(self.ops@[b].operation_id@ == before[b].operation_id@);
                }
            },
            None => {},
        }
        proof {
            if drag_ids_below(before, self.next_seq) {
                lemma_below_after_restate(before, self.ops@, op_id@, status, self.next_seq);
            }
        }
    }

    /// Marks the operation `op_id` as dropped; nothing happens if there is
    /// none.
    pub fn mark_dropped(&mut self, op_id: &str)
        requires
            old(self).wf(),
        ensures
            final(self).wf(),
            final(self).counter() == old(self).counter(),
            restates_drag(old(self)@, final(self)@, op_id@, DragOpStatus::Dropped),
            final(self).has_wrapped() == old(self).has_wrapped(),
    {
        self.set_status(op_id, DragOpStatus::Dropped);
    }

    /// Copies of all registered operations.
    pub fn list_operations(&self) -> (r: Vec<DragOperation>)
        ensures
            r@.len() == self@.len(),
            forall|i: int| 0 <= i < r@.len() ==> same_drag_op(#[trigger] r@[i], self@[i]),
    {
        let mut r: Vec<DragOperation> = Vec::new();
        for i in 0..self.ops.len()
            invariant
                r@.len() == i,
                forall|j: int| 0 <= j < i ==> same_drag_op(#[trigger] r@[j], self.ops@[j]),
        {
            r.push(self.ops[i].duplicate());
        }
        r
    }
}

} // verus!

verus! {

/// The leading component of a path, the volume it lies on: a drive `X:`
/// (letter in upper case), a network or device prefix such as
/// `\\server\share`, the root `\` of a path without prefix, or else the
/// first name of a relative path (`/` counts as `\`).
pub open spec fn volume_root(p: Seq<char>) -> Seq<char> {
    let parts = parse_parts(split_bs(backslashed(p)));
    if parts.prefix.len() > 0 {
        if is_drive(parts.prefix) {
            seq![ascii_upper(parts.prefix[0]), ':']
        } else {
            parts.prefix
        }
    } else if parts.root {
        seq!['\\']
    } else {
        parts.rest[0]
    }
}

fn volume_root_of(path: &str) -> (r: Vec<char>)
    ensures
        r@ == volume_root(path@),
{
    let segs = split_backslash(&backslash_chars(path));
    let (prefix, root, rest) = parse_path_parts(&segs);
    if prefix.len() > 0 {
        if prefix.len() == 2 && crate::normalize::is_ascii_alpha_char(prefix[0]) && prefix[1] == ':' {
            let r = vec![to_ascii_upper(prefix[0]), ':'];
            assert(r@ =~= seq![ascii_upper(prefix@[0]), ':']);
            r
        } else {
            prefix
        }
    } else if root {
        let r = vec!['\\'];
        assert(r@ =~= seq!['\\']);
        r
    } else {
        proof {
            crate::normalize::lemma_split_bs_nonempty(backslashed(path@));
        }
        let first = crate::text::copy_chars(&rest[0]);
        assert(rest.deep_view()[0] == rest@[0]@);
        first
    }
}

/// Whether a drop from `src_path` into `target_path` crosses volumes: their
/// leading components (see `volume_root`) differ.
pub fn is_cross_volume(src_path: &str, target_path: &str) -> (r: bool)
    ensures
        r == (volume_root(src_path@) != volume_root(target_path@)),
{
    let a = volume_root_of(src_path);
    let b = volume_root_of(target_path);
    !crate::text::chars_eq(&a, &b)
}

/// What a drop does: an explicit request for `"copy"` or `"move"` decides;
/// otherwise a drop across volumes copies, and any other keeps the type the
/// drag was made with.
pub open spec fn drop_type(requested: Option<Seq<char>>, cross_volume: bool, drag_type: DragOpType) -> DragOpType {
    match requested {
        Some(t) if t == "copy"@ => DragOpType::Copy,
        Some(t) if t == "move"@ => DragOpType::Move,
        _ => if cross_volume {
            DragOpType::Copy
        } else {
            drag_type
        },
    }
}

/// The type a drop is carried out with (see `drop_type`).
pub fn effective_drop_type(requested: Option<&str>, cross_volume: bool, drag_type: DragOpType) -> (r:
    DragOpType)
    ensures
        r == drop_type(
            match requested {
                Some(t) => Some(t@),
                None => None,
            },
            cross_volume,
            drag_type,
        ),
{
    match requested {
        Some(t) => {
            if str_eq(t, "copy") {
                return DragOpType::Copy;
            }
            if str_eq(t, "move") {
                return DragOpType::Move;
            }
        },
        None => {},
    }
    if cross_volume {
        DragOpType::Copy
    } else {
        drag_type
    }
}

} // verus!

verus! {

/// What a drop of operation `operation_id` is refused with, if anything:
/// an unknown operation, or one already dropped.
pub open spec fn drop_refusal(ops: Seq<DragOperation>, operation_id: Seq<char>) -> Option<
    (ErrorCode, Seq<char>),
> {
    match drag_lookup(ops, operation_id) {
        None => Some((ErrorCode::PathNotFound, "拖拽操作不存在或已过期"@)),
        Some(op) => if op.status != DragOpStatus::Active {
            Some((ErrorCode::InternalError, "此拖拽操作已被使用，不能再次释放"@))
        } else {
            None
        },
    }
}

/// Whether a drop into `target` crosses volumes, judged by the first
/// source (no source: it does not).
pub open spec fn drop_crosses(sources: Seq<String>, target: Seq<char>) -> bool {
    sources.len() > 0 && volume_root(sources[0]@) != volume_root(target)
}

impl DragRegistry {
    /// Decides whether operation `operation_id` may be dropped (see
    /// `drop_refusal`) and, if so, returns a copy of it.
    pub fn check_drop(&self, operation_id: &str) -> (r: Result<DragOperation, AppError>)
        requires
            self.wf(),
        ensures
            match drop_refusal(self@, operation_id@) {
                None => r matches Ok(op) && same_drag_op(op, drag_lookup(self@, operation_id@)->0),
                Some((code, msg)) => r matches Err(e) && is_plain_error(e, code, msg),
            },
    {
        let op = match self.get_operation(operation_id) {
            Some(op) => op,
            None => {
                return Err(
                    AppError::new(ErrorCode::PathNotFound, String::from_str("拖拽操作不存在或已过期")),
                );
            },
        };
        if op.status != DragOpStatus::Active {
            return Err(
                AppError::new(
                    ErrorCode::InternalError,
                    String::from_str("此拖拽操作已被使用，不能再次释放"),
                ),
            );
        }
        Ok(op)
    }
}

/// The type a drop of `op` into `target_dir` is carried out with: the
/// requested type, else a copy across volumes, else the drag's own type
/// (see `drop_type`).
pub fn plan_drop_type(op: &DragOperation, target_dir: &str, requested: Option<&str>) -> (r: DragOpType)
    ensures
        r == drop_type(
            match requested {
                Some(t) => Some(t@),
                None => None,
            },
            drop_crosses(op.source_paths@, target_dir@),
            op.drag_type,
        ),
{
    let cross = if op.source_paths.len() > 0 {
        is_cross_volume(op.source_paths[0].as_str(), target_dir)
    } else {
        false
    };
    effective_drop_type(requested, cross, op.drag_type)
}

} // verus!

verus! {

/// Once dropped, an operation cannot be dropped again; once deleted, it is
/// not found.
pub proof fn law_dropped_operation_is_refused(
    before: Seq<DragOperation>,
    dropped: Seq<DragOperation>,
    deleted: Seq<DragOperation>,
    id: Seq<char>,
)
    requires
        distinct_drag_ids(before),
        holds_drag(before, id),
        restates_drag(before, dropped, id, DragOpStatus::Dropped),
        drops_drag(before, deleted, id),
    ensures
        drop_refusal(dropped, id) == Some(
            (ErrorCode::InternalError, "此拖拽操作已被使用，不能再次释放"@),
        ),
        drop_refusal(deleted, id) == Some((ErrorCode::PathNotFound, "拖拽操作不存在或已过期"@)),
{
    law_drag_restate_then_get(before, dropped, id, DragOpStatus::Dropped);
    law_drag_delete_then_get(before, deleted, id);
}

} // verus!
