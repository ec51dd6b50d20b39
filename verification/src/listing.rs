use vstd::prelude::*;
use crate::path_safety::last_dot;
use crate::error::{is_plain_error, AppError, ErrorCode, IoErrorKind};
use crate::text::{chars_end_with, chars_of, join2, lowercase, seq_ends_with, to_lowercase};
use crate::types::{DirectoryPage, FileEntry, FilterKind, SortKey};

verus! {

// ---------------------------------------------------------------------------
// Comparison
// ---------------------------------------------------------------------------

/// The result of comparing two values.
#[derive(Clone, Copy, Debug, PartialEq, Eq, Structural)]
pub enum Order {
    Less,
    Equal,
    Greater,
}

/// The reverse of an order.
pub open spec fn flip(o: Order) -> Order {
    match o {
        Order::Less => Order::Greater,
        Order::Equal => Order::Equal,
        Order::Greater => Order::Less,
    }
}

/// Integers in their natural order.
pub open spec fn compare_int(a: int, b: int) -> Order {
    if a < b {
        Order::Less
    } else if a > b {
        Order::Greater
    } else {
        Order::Equal
    }
}

/// Character sequences compared lexicographically from index `i` on, by
/// code point (the order of `str`).
pub open spec fn compare_from(a: Seq<char>, b: Seq<char>, i: int) -> Order
    decreases a.len() - i,
{
    if i >= a.len() {
        if i >= b.len() {
            Order::Equal
        } else {
            Order::Less
        }
    } else if i >= b.len() {
        Order::Greater
    } else if (a[i] as u32) < (b[i] as u32) {
        Order::Less
    } else if (a[i] as u32) > (b[i] as u32) {
        Order::Greater
    } else {
        compare_from(a, b, i + 1)
    }
}

/// Character sequences in lexicographic order.
pub open spec fn compare_chars(a: Seq<char>, b: Seq<char>) -> Order {
    compare_from(a, b, 0)
}

pub proof fn lemma_compare_from_antisym(a: Seq<char>, b: Seq<char>, i: int)
    requires
        0 <= i,
    ensures
        compare_from(a, b, i) == flip(compare_from(b, a, i)),
    decreases a.len() - i,
{
    if i < a.len() && i < b.len() && (a[i] as u32) == (b[i] as u32) {
        lemma_compare_from_antisym(a, b, i + 1);
    }
}

pub proof fn lemma_compare_from_trans(a: Seq<char>, b: Seq<char>, c: Seq<char>, i: int)
    requires
        0 <= i,
        compare_from(a, b, i) != Order::Greater,
        compare_from(b, c, i) != Order::Greater,
    ensures
        compare_from(a, c, i) != Order::Greater,
        compare_from(a, b, i) == Order::Less || compare_from(b, c, i) == Order::Less ==> compare_from(a, c, i)
            == Order::Less,
    decreases a.len() - i,
{
    if i < a.len() && i < b.len() && i < c.len() && (a[i] as u32) == (b[i] as u32) && (b[i] as u32)
        == (c[i] as u32) {
        lemma_compare_from_trans(a, b, c, i + 1);
    }
}

/// The text after the last `.` of a name, or the whole name without one
/// (what `name.rsplit('.').next()` gives).
pub open spec fn extension(name: Seq<char>) -> Seq<char> {
    if last_dot(name) >= 0 {
        name.skip(last_dot(name) + 1)
    } else {
        name
    }
}

/// How two entries compare under a sort key alone.
pub open spec fn key_order(a: FileEntry, b: FileEntry, key: SortKey) -> Order {
    match key {
        SortKey::Name => compare_chars(lowercase(a.name@), lowercase(b.name@)),
        SortKey::Modified => compare_int(a.modified as int, b.modified as int),
        SortKey::Size => compare_int(a.size as int, b.size as int),
        SortKey::FileType => compare_chars(extension(a.name@), extension(b.name@)),
    }
}

/// The order of a directory listing: folders before files, then by the key,
/// reversed when descending.
pub open spec fn entry_order(a: FileEntry, b: FileEntry, key: SortKey, ascending: bool) -> Order {
    if a.is_folder != b.is_folder {
        if a.is_folder {
            Order::Less
        } else {
            Order::Greater
        }
    } else if ascending {
        key_order(a, b, key)
    } else {
        flip(key_order(a, b, key))
    }
}

/// Comparing `b` with `a` gives the reverse of comparing `a` with `b`.
pub proof fn lemma_entry_order_antisym(a: FileEntry, b: FileEntry, key: SortKey, ascending: bool)
    ensures
        entry_order(a, b, key, ascending) == flip(entry_order(b, a, key, ascending)),
{
    lemma_compare_from_antisym(lowercase(a.name@), lowercase(b.name@), 0);
    lemma_compare_from_antisym(extension(a.name@), extension(b.name@), 0);
}

/// The listing order is transitive.
pub proof fn lemma_entry_order_trans(
    a: FileEntry,
    b: FileEntry,
    c: FileEntry,
    key: SortKey,
    ascending: bool,
)
    requires
        entry_order(a, b, key, ascending) != Order::Greater,
        entry_order(b, c, key, ascending) != Order::Greater,
    ensures
        entry_order(a, c, key, ascending) != Order::Greater,
{
    let (la, lb, lc) = (lowercase(a.name@), lowercase(b.name@), lowercase(c.name@));
    let (ea, eb, ec) = (extension(a.name@), extension(b.name@), extension(c.name@));
    if a.is_folder == b.is_folder && b.is_folder == c.is_folder {
        if ascending {
            if key == SortKey::Name {
                lemma_compare_from_trans(la, lb, lc, 0);
            } else if key == SortKey::FileType {
                lemma_compare_from_trans(ea, eb, ec, 0);
            }
        } else {
            if key == SortKey::Name {
                lemma_compare_from_antisym(la, lb, 0);
                lemma_compare_from_antisym(lb, lc, 0);
                lemma_compare_from_antisym(la, lc, 0);
                lemma_compare_from_trans(lc, lb, la, 0);
            } else if key == SortKey::FileType {
                lemma_compare_from_antisym(ea, eb, 0);
                lemma_compare_from_antisym(eb, ec, 0);
                lemma_compare_from_antisym(ea, ec, 0);
                lemma_compare_from_trans(ec, eb, ea, 0);
            }
        }
    }
}

} // verus!

verus! {

// ---------------------------------------------------------------------------
// Sorting
// ---------------------------------------------------------------------------

/// The text an entry is compared by under `key` (empty for numeric keys).
pub open spec fn key_text(e: FileEntry, key: SortKey) -> Seq<char> {
    match key {
        SortKey::Name => lowercase(e.name@),
        SortKey::FileType => extension(e.name@),
        _ => Seq::empty(),
    }
}

/// The number an entry is compared by under `key` (zero for text keys).
pub open spec fn key_number(e: FileEntry, key: SortKey) -> int {
    match key {
        SortKey::Modified => e.modified as int,
        SortKey::Size => e.size as int,
        _ => 0,
    }
}

/// What an entry is compared by, computed once per entry.
pub struct EntryKey {
    pub folder: bool,
    pub text: Vec<char>,
    pub number: i128,
}

/// `k` holds what `e` is compared by under `key`.
pub open spec fn key_of(k: EntryKey, e: FileEntry, key: SortKey) -> bool {
    k.folder == e.is_folder && k.text@ == key_text(e, key) && k.number == key_number(e, key)
}

/// The text after the last `.` of a name, or the whole name without one.
pub fn extension_of(name: &Vec<char>) -> (r: Vec<char>)
    ensures
        r@ == extension(name@),
{
    let n = name.len();
    let mut k: usize = n;
    let mut pos: Option<usize> = None;
    while k > 0
        invariant
            k <= n,
            n == name.len(),
            pos is None ==> forall|j: int| k <= j < n ==> name@[j] != '.',
            pos matches Some(p) ==> p < n && name@[p as int] == '.' && forall|j: int|
                p < j < n ==> name@[j] != '.',
        decreases k,
    {
        if pos.is_none() && name[k - 1] == '.' {
            pos = Some(k - 1);
        }
        k = k - 1;
    }
    match pos {
        Some(p) => {
            proof {
                crate::path_safety::lemma_last_dot_at(name@, p as int);
            }
            let mut r: Vec<char> = Vec::new();
            let mut i = p + 1;
            while i < n
                invariant
                    p + 1 <= i <= n,
                    n == name.len(),
                    r@ == name@.subrange(p + 1, i as int),
                decreases n - i,
            {
                r.push(name[i]);
                assert(r@ =~= name@.subrange(p + 1, i + 1));
                i = i + 1;
            }
            assert(r@ =~= name@.skip(p + 1));
            r
        },
        None => {
            proof {
                crate::path_safety::lemma_last_dot_at(name@, -1);
            }
            crate::text::copy_chars(name)
        },
    }
}

/// What `e` is compared by under `key`.
pub fn entry_key(e: &FileEntry, key: SortKey) -> (r: EntryKey)
    ensures
        key_of(r, *e, key),
{
    match key {
        SortKey::Name => {
            let l = to_lowercase(e.name.as_str());
            EntryKey { folder: e.is_folder, text: chars_of(l.as_str()), number: 0 }
        },
        SortKey::FileType => {
            let c = chars_of(e.name.as_str());
            EntryKey { folder: e.is_folder, text: extension_of(&c), number: 0 }
        },
        SortKey::Modified => EntryKey {
            folder: e.is_folder,
            text: Vec::new(),
            number: e.modified as i128,
        },
        SortKey::Size => EntryKey { folder: e.is_folder, text: Vec::new(), number: e.size as i128 },
    }
}

/// Compares character sequences lexicographically.
pub fn compare_char_vecs(a: &Vec<char>, b: &Vec<char>) -> (r: Order)
    ensures
        r == compare_chars(a@, b@),
{
    let mut i: usize = 0;
    while i < a.len() && i < b.len()
        invariant
            i <= a.len(),
            i <= b.len(),
            compare_from(a@, b@, 0) == compare_from(a@, b@, i as int),
        decreases a.len() - i,
    {
        let x = a[i] as u32;
        let y = b[i] as u32;
        if x < y {
            return Order::Less;
        }
        if x > y {
            return Order::Greater;
        }
        i = i + 1;
    }
    if i < b.len() {
        Order::Less
    } else if i < a.len() {
        Order::Greater
    } else {
        Order::Equal
    }
}

/// Compares two entries by their precomputed keys.
fn compare_entry_keys(
    ka: &EntryKey,
    kb: &EntryKey,
    key: SortKey,
    ascending: bool,
    a: Ghost<FileEntry>,
    b: Ghost<FileEntry>,
) -> (r: Order)
    requires
        key_of(*ka, a@, key),
        key_of(*kb, b@, key),
    ensures
        r == entry_order(a@, b@, key, ascending),
{
    if ka.folder != kb.folder {
        return if ka.folder {
            Order::Less
        } else {
            Order::Greater
        };
    }
    let o = match key {
        SortKey::Name | SortKey::FileType => compare_char_vecs(&ka.text, &kb.text),
        _ => {
            if ka.number < kb.number {
                Order::Less
            } else if ka.number > kb.number {
                Order::Greater
            } else {
                Order::Equal
            }
        },
    };
    if ascending {
        o
    } else {
        match o {
            Order::Less => Order::Greater,
            Order::Equal => Order::Equal,
            Order::Greater => Order::Less,
        }
    }
}

/// Entry `i` comes before entry `j` in the listing: it is smaller, or equal
/// and earlier in the order given (the sort is stable).
pub open spec fn precedes(f: Seq<FileEntry>, key: SortKey, ascending: bool, i: int, j: int) -> bool {
    entry_order(f[i], f[j], key, ascending) == Order::Less || (entry_order(
        f[i],
        f[j],
        key,
        ascending,
    ) == Order::Equal && i < j)
}

/// `idx` lists each of `0..n` exactly once.
pub open spec fn is_index_permutation(idx: Seq<usize>, n: int) -> bool {
    &&& idx.len() == n
    &&& forall|k: int| 0 <= k < idx.len() ==> idx[k] < n
    &&& forall|p: int, q: int| 0 <= p < q < idx.len() ==> idx[p] != idx[q]
    &&& forall|j: int| 0 <= j < n ==> #[trigger] idx.contains(j as usize)
}

/// `idx` lists the entries of `f` in listing order.
pub open spec fn is_listing_order(f: Seq<FileEntry>, key: SortKey, ascending: bool, idx: Seq<usize>) -> bool {
    &&& is_index_permutation(idx, f.len() as int)
    &&& forall|p: int, q: int|
        0 <= p < q < idx.len() ==> precedes(f, key, ascending, idx[p] as int, idx[q] as int)
}

/// The positions of `entries` in listing order (a stable insertion sort).
pub fn sort_indices(entries: &Vec<FileEntry>, key: SortKey, ascending: bool) -> (r: Vec<usize>)
    ensures
        is_listing_order(entries@, key, ascending, r@),
{
    let n = entries.len();
    let mut keys: Vec<EntryKey> = Vec::new();
    for i in 0..n
        invariant
            n == entries.len(),
            keys.len() == i,
            forall|k: int| 0 <= k < i ==> key_of(#[trigger] keys@[k], entries@[k], key),
    {
        keys.push(entry_key(&entries[i], key));
    }
    let ghost f = entries@;
    let mut idx: Vec<usize> = Vec::new();
    for i in 0..n
        invariant
            n == entries.len(),
            f == entries@,
            keys.len() == n,
            forall|k: int| 0 <= k < n ==> key_of(#[trigger] keys@[k], f[k], key),
            idx.len() == i,
            forall|k: int| 0 <= k < idx.len() ==> idx@[k] < i,
            forall|j: int| 0 <= j < i ==> #[trigger] idx@.contains(j as usize),
            forall|p: int, q: int| 0 <= p < q < idx.len() ==> idx@[p] != idx@[q],
            forall|p: int, q: int|
                0 <= p < q < idx.len() ==> precedes(f, key, ascending, idx@[p] as int, idx@[q] as int),
    {
        // just after the last entry that does not compare greater than entry `i`
        let mut pos: usize = idx.len();
        while pos > 0 && compare_entry_keys(
            &keys[idx[pos - 1]],
            &keys[i],
            key,
            ascending,
            Ghost(f[idx@[pos - 1] as int]),
            Ghost(f[i as int]),
        ) == Order::Greater
            invariant
                pos <= idx.len(),
                n == entries.len(),
                keys.len() == n,
                i < n,
                forall|k: int| 0 <= k < n ==> key_of(#[trigger] keys@[k], f[k], key),
                forall|k: int| 0 <= k < idx.len() ==> idx@[k] < i,
                forall|k: int|
                    pos <= k < idx.len() ==> entry_order(f[idx@[k] as int], f[i as int], key, ascending)
                        == Order::Greater,
            decreases pos,
        {
            pos = pos - 1;
        }
        let ghost old_idx = idx@;
        proof {
            assert forall|q: int| pos <= q < old_idx.len() implies entry_order(
                f[i as int],
                f[old_idx[q] as int],
                key,
                ascending,
            ) == Order::Less by {
                lemma_entry_order_antisym(f[old_idx[q] as int], f[i as int], key, ascending);
            }
            if pos > 0 {
                let last = f[old_idx[pos - 1] as int];
                let x = f[i as int];
                assert(entry_order(last, x, key, ascending) != Order::Greater);
                assert forall|q: int| 0 <= q < pos implies entry_order(
                    f[old_idx[q] as int],
                    x,
                    key,
                    ascending,
                ) != Order::Greater by {
                    if q < pos - 1 {
                        assert(precedes(f, key, ascending, old_idx[q] as int, old_idx[pos - 1] as int));
                        lemma_entry_order_trans(f[old_idx[q] as int], last, x, key, ascending);
                    }
                }
            }
        }
        idx.insert(pos, i);
        proof {
            assert forall|p: int, q: int| 0 <= p < q < idx.len() implies precedes(
                f,
                key,
                ascending,
                idx@[p] as int,
                idx@[q] as int,
            ) by {
                if q < pos {
                    assert(idx@[p] == old_idx[p] && idx@[q] == old_idx[q]);
                } else if q == pos {
                    assert(idx@[p] == old_idx[p]);
                } else if p < pos {
                    assert(idx@[p] == old_idx[p] && idx@[q] == old_idx[q - 1]);
                } else if p == pos {
                    assert(idx@[q] == old_idx[q - 1]);
                } else {
                    assert(idx@[p] == old_idx[p - 1] && idx@[q] == old_idx[q - 1]);
                }
            }
            assert forall|p: int, q: int| 0 <= p < q < idx.len() implies idx@[p] != idx@[q] by {
                if q < pos {
                } else if q == pos {
                    assert(idx@[p] == old_idx[p]);
                } else if p < pos {
                    assert(idx@[p] == old_idx[p] && idx@[q] == old_idx[q - 1]);
                } else if p == pos {
                    assert(idx@[q] == old_idx[q - 1]);
                } else {
                    assert(idx@[p] == old_idx[p - 1] && idx@[q] == old_idx[q - 1]);
                }
            }
            assert forall|k: int| 0 <= k < idx.len() implies idx@[k] < i + 1 by {
                if k < pos {
                    assert(idx@[k] == old_idx[k]);
                } else if k > pos {
                    assert(idx@[k] == old_idx[k - 1]);
                }
            }
            assert forall|j: int| 0 <= j < i + 1 implies #[trigger] idx@.contains(j as usize) by {
                if j == i {
                    assert(idx@[pos as int] == i);
                } else {
                    assert(old_idx.contains(j as usize));
                    let k = choose|k: int| 0 <= k < old_idx.len() && old_idx[k] == j as usize;
                    if k < pos {
                        assert(idx@[k] == old_idx[k]);
                    } else {
                        assert(idx@[k + 1] == old_idx[k]);
                    }
                }
            }
        }
    }
    idx
}

} // verus!

verus! {

// ---------------------------------------------------------------------------
// Filtering and paging
// ---------------------------------------------------------------------------

/// A lower-case name with an image extension.
pub open spec fn is_image_name(l: Seq<char>) -> bool {
    seq_ends_with(l, ".png"@) || seq_ends_with(l, ".jpg"@) || seq_ends_with(l, ".jpeg"@)
        || seq_ends_with(l, ".gif"@) || seq_ends_with(l, ".bmp"@) || seq_ends_with(l, ".webp"@)
}

/// A lower-case name with a document extension.
pub open spec fn is_document_name(l: Seq<char>) -> bool {
    seq_ends_with(l, ".pdf"@) || seq_ends_with(l, ".docx"@) || seq_ends_with(l, ".xlsx"@)
        || seq_ends_with(l, ".txt"@) || seq_ends_with(l, ".md"@) || seq_ends_with(l, ".rs"@)
        || seq_ends_with(l, ".toml"@) || seq_ends_with(l, ".json"@)
}

/// A lower-case name with a video extension.
pub open spec fn is_video_name(l: Seq<char>) -> bool {
    seq_ends_with(l, ".mp4"@) || seq_ends_with(l, ".mov"@) || seq_ends_with(l, ".avi"@)
        || seq_ends_with(l, ".mkv"@)
}

/// Whether a listing with this filter and hidden-file setting shows `e`.
pub open spec fn is_shown(e: FileEntry, filter: FilterKind, show_hidden: bool) -> bool {
    (show_hidden || !e.is_hidden) && match filter {
        FilterKind::All => true,
        FilterKind::Folders => e.is_folder,
        FilterKind::Files => !e.is_folder,
        FilterKind::Images => !e.is_folder && is_image_name(lowercase(e.name@)),
        FilterKind::Documents => !e.is_folder && is_document_name(lowercase(e.name@)),
        FilterKind::Videos => !e.is_folder && is_video_name(lowercase(e.name@)),
    }
}

/// The entries of `s` that the listing shows, in the order given.
pub open spec fn shown_entries(s: Seq<FileEntry>, filter: FilterKind, show_hidden: bool) -> Seq<
    FileEntry,
>
    decreases s.len(),
{
    if s.len() == 0 {
        Seq::empty()
    } else if is_shown(s.last(), filter, show_hidden) {
        shown_entries(s.drop_last(), filter, show_hidden).push(s.last())
    } else {
        shown_entries(s.drop_last(), filter, show_hidden)
    }
}

/// Whether a listing with this filter and hidden-file setting shows `e`.
pub fn entry_is_shown(e: &FileEntry, filter: FilterKind, show_hidden: bool) -> (r: bool)
    ensures
        r == is_shown(*e, filter, show_hidden),
{
    if e.is_hidden && !show_hidden {
        return false;
    }
    match filter {
        FilterKind::All => true,
        FilterKind::Folders => e.is_folder,
        FilterKind::Files => !e.is_folder,
        FilterKind::Images => {
            if e.is_folder {
                return false;
            }
            let l = chars_of(to_lowercase(e.name.as_str()).as_str());
            chars_end_with(&l, ".png") || chars_end_with(&l, ".jpg") || chars_end_with(&l, ".jpeg")
                || chars_end_with(&l, ".gif") || chars_end_with(&l, ".bmp") || chars_end_with(
                &l,
                ".webp",
            )
        },
        FilterKind::Documents => {
            if e.is_folder {
                return false;
            }
            let l = chars_of(to_lowercase(e.name.as_str()).as_str());
            chars_end_with(&l, ".pdf") || chars_end_with(&l, ".docx") || chars_end_with(&l, ".xlsx")
                || chars_end_with(&l, ".txt") || chars_end_with(&l, ".md") || chars_end_with(
                &l,
                ".rs",
            ) || chars_end_with(&l, ".toml") || chars_end_with(&l, ".json")
        },
        FilterKind::Videos => {
            if e.is_folder {
                return false;
            }
            let l = chars_of(to_lowercase(e.name.as_str()).as_str());
            chars_end_with(&l, ".mp4") || chars_end_with(&l, ".mov") || chars_end_with(&l, ".avi")
                || chars_end_with(&l, ".mkv")
        },
    }
}

impl FileEntry {
    /// An exact copy.
    pub fn duplicate(&self) -> (r: FileEntry)
        ensures
            r == *self,
    {
        FileEntry {
            path: self.path.clone(),
            name: self.name.clone(),
            size: self.size,
            modified: self.modified,
            is_hidden: self.is_hidden,
            is_folder: self.is_folder,
        }
    }
}

/// The entries the listing shows, in the order given.
pub fn filter_entries(entries: &Vec<FileEntry>, filter: FilterKind, show_hidden: bool) -> (r: Vec<
    FileEntry,
>)
    ensures
        r@ == shown_entries(entries@, filter, show_hidden),
{
    let mut r: Vec<FileEntry> = Vec::new();
    for i in 0..entries.len()
        invariant
            r@ == shown_entries(entries@.take(i as int), filter, show_hidden),
    {
        assert(entries@.take(i + 1).drop_last() =~= entries@.take(i as int));
        if entry_is_shown(&entries[i], filter, show_hidden) {
            r.push(entries[i].duplicate());
        }
    }
    assert(entries@.take(entries.len() as int) =~= entries@);
    r
}

/// The version stamp of a directory snapshot: the directory's modification
/// time in milliseconds times 31, plus the number of entries shown.
pub open spec fn snapshot_stamp(dir_mtime_ms: int, total_count: int) -> int {
    dir_mtime_ms * 31 + total_count
}

/// The version stamp of a directory snapshot (see `snapshot_stamp`).
pub fn compute_snapshot_version(dir_mtime_ms: u64, total_count: usize) -> (r: u64)
    requires
        snapshot_stamp(dir_mtime_ms as int, total_count as int) <= u64::MAX,
    ensures
        r == snapshot_stamp(dir_mtime_ms as int, total_count as int),
{
    dir_mtime_ms * 31 + total_count as u64
}

/// The end of the window `[offset, offset + limit)` over `n` items.
pub open spec fn window_end(n: int, offset: int, limit: int) -> int {
    if offset >= n {
        offset
    } else if limit >= n - offset {
        n
    } else {
        offset + limit
    }
}

/// `page` is the window at `offset` of at most `limit` entries of the
/// shown entries in listing order `idx`.
pub open spec fn is_page_of(
    page: Seq<FileEntry>,
    shown: Seq<FileEntry>,
    idx: Seq<usize>,
    offset: int,
    limit: int,
) -> bool {
    let end = window_end(shown.len() as int, offset, limit);
    &&& page.len() == end - offset || (offset >= shown.len() && page.len() == 0)
    &&& forall|k: int| 0 <= k < page.len() ==> page[k] == shown[idx[offset + k] as int]
}

/// A window onto a directory listing, built from the raw entries read from
/// the directory: the shown entries (see `is_shown`) are put in listing
/// order (folders first, then by the key, stable), `total_count` counts
/// them all, and `entries` holds the window of at most `limit` of them from
/// position `offset` on. `list_directory` is the unpaginated form.
pub fn list_directory_paginated(
    path: String,
    raw_entries: &Vec<FileEntry>,
    sort_key: SortKey,
    sort_ascending: bool,
    filter_kind: FilterKind,
    show_hidden: bool,
    dir_mtime_ms: u64,
    offset: usize,
    limit: usize,
) -> (page: DirectoryPage)
    requires
        snapshot_stamp(
            dir_mtime_ms as int,
            shown_entries(raw_entries@, filter_kind, show_hidden).len() as int,
        ) <= u64::MAX,
    ensures
        page.path == path,
        page.total_count == shown_entries(raw_entries@, filter_kind, show_hidden).len(),
        page.sort_key == sort_key,
        page.sort_ascending == sort_ascending,
        page.filter_kind == filter_kind,
        page.show_hidden == show_hidden,
        page.snapshot_version == snapshot_stamp(dir_mtime_ms as int, page.total_count as int),
        page.offset == offset,
        page.limit == limit,
        exists|idx: Seq<usize>|
            #![trigger is_listing_order(shown_entries(raw_entries@, filter_kind, show_hidden), sort_key, sort_ascending, idx)]
            is_listing_order(
                shown_entries(raw_entries@, filter_kind, show_hidden),
                sort_key,
                sort_ascending,
                idx,
            ) && is_page_of(
                page.entries@,
                shown_entries(raw_entries@, filter_kind, show_hidden),
                idx,
                offset as int,
                limit as int,
            ),
{
    let shown = filter_entries(raw_entries, filter_kind, show_hidden);
    let idx = sort_indices(&shown, sort_key, sort_ascending);
    let n = shown.len();
    let end: usize = if offset >= n {
        offset
    } else if limit >= n - offset {
        n
    } else {
        offset + limit
    };
    let mut entries: Vec<FileEntry> = Vec::new();
    let mut k: usize = offset;
    while k < end
        invariant
            offset <= k,
            k <= end,
            end <= n || offset >= n,
            end == window_end(n as int, offset as int, limit as int),
            n == shown.len(),
            idx@.len() == n,
            forall|j: int| 0 <= j < idx.len() ==> idx@[j] < n,
            entries.len() == k - offset,
            forall|j: int| 0 <= j < entries.len() ==> entries@[j] == shown@[idx@[offset + j] as int],
        decreases end - k,
    {
        entries.push(shown[idx[k]].duplicate());
        k = k + 1;
    }
    let total = n;
    let snapshot_version = compute_snapshot_version(dir_mtime_ms, total);
    let page = DirectoryPage {
        path,
        entries,
        total_count: total,
        sort_key,
        sort_ascending,
        filter_kind,
        show_hidden,
        snapshot_version,
        offset,
        limit,
    };
    assert(is_listing_order(shown@, sort_key, sort_ascending, idx@));
    assert(is_page_of(page.entries@, shown@, idx@, offset as int, limit as int));
    page
}

/// The whole listing in one page: `list_directory_paginated` from offset 0
/// with no limit.
pub fn list_directory(
    path: String,
    raw_entries: &Vec<FileEntry>,
    sort_key: SortKey,
    sort_ascending: bool,
    filter_kind: FilterKind,
    show_hidden: bool,
    dir_mtime_ms: u64,
) -> (page: DirectoryPage)
    requires
        snapshot_stamp(
            dir_mtime_ms as int,
            shown_entries(raw_entries@, filter_kind, show_hidden).len() as int,
        ) <= u64::MAX,
    ensures
        page.path == path,
        page.total_count == shown_entries(raw_entries@, filter_kind, show_hidden).len(),
        page.entries.len() == page.total_count,
        page.sort_key == sort_key,
        page.sort_ascending == sort_ascending,
        page.filter_kind == filter_kind,
        page.show_hidden == show_hidden,
        page.snapshot_version == snapshot_stamp(dir_mtime_ms as int, page.total_count as int),
        page.offset == 0,
        page.limit == usize::MAX,
        exists|idx: Seq<usize>|
            #![trigger is_listing_order(shown_entries(raw_entries@, filter_kind, show_hidden), sort_key, sort_ascending, idx)]
            is_listing_order(
                shown_entries(raw_entries@, filter_kind, show_hidden),
                sort_key,
                sort_ascending,
                idx,
            ) && is_page_of(
                page.entries@,
                shown_entries(raw_entries@, filter_kind, show_hidden),
                idx,
                0,
                usize::MAX as int,
            ),
{
    let page = list_directory_paginated(
        path,
        raw_entries,
        sort_key,
        sort_ascending,
        filter_kind,
        show_hidden,
        dir_mtime_ms,
        0,
        usize::MAX,
    );
    page
}

} // verus!

verus! {

/// The Windows attribute bit of hidden files.
pub const FILE_ATTRIBUTE_HIDDEN: u32 = 0x2;

/// A directory entry built from what the file system reports of it:
/// hidden when the hidden attribute bit is set, size 0 for folders.
pub fn entry_from_metadata(
    path: String,
    name: String,
    len: u64,
    modified_secs: i64,
    attributes: u32,
    is_dir: bool,
) -> (e: FileEntry)
    ensures
        e.path == path,
        e.name == name,
        e.size == (if is_dir {
            0
        } else {
            len
        }),
        e.modified == modified_secs,
        e.is_hidden == (attributes & 2u32 != 0),
        e.is_folder == is_dir,
{
    FileEntry {
        path,
        name,
        size: if is_dir {
            0
        } else {
            len
        },
        modified: modified_secs,
        is_hidden: attributes & FILE_ATTRIBUTE_HIDDEN != 0,
        is_folder: is_dir,
    }
}

} // verus!

verus! {

/// What the file system said of a directory to be listed.
#[derive(Clone, Debug)]
pub enum DirProbe {
    /// It is a directory that could be opened.
    Readable,
    /// Nothing exists at the path.
    Missing,
    /// Something that is not a directory exists at the path.
    NotDirectory,
    /// Opening it failed; `detail` is the I/O error's text.
    ReadFailed { kind: IoErrorKind, detail: String },
}

/// The error a directory listing is refused with, if any.
pub open spec fn listing_problem(path: Seq<char>, probe: DirProbe) -> Option<(ErrorCode, Seq<char>)> {
    match probe {
        DirProbe::Readable => None,
        DirProbe::Missing => Some((ErrorCode::PathNotFound, "路径不存在: "@ + path)),
        DirProbe::NotDirectory => Some((ErrorCode::PathNotFound, "不是目录: "@ + path)),
        DirProbe::ReadFailed { kind, detail } => match kind {
            IoErrorKind::PermissionDenied => Some((ErrorCode::PermissionDenied, "权限不足: "@ + path)),
            IoErrorKind::NotFound => Some((ErrorCode::PathNotFound, "路径不存在: "@ + path)),
            IoErrorKind::Other => Some((ErrorCode::InternalError, "读取目录失败: "@ + detail@)),
        },
    }
}

/// Checks that a directory can be listed (see `listing_problem`).
pub fn check_directory(path: &str, probe: DirProbe) -> (r: Result<(), AppError>)
    ensures
        match listing_problem(path@, probe) {
            None => r is Ok,
            Some((code, msg)) => r matches Err(e) && is_plain_error(e, code, msg),
        },
{
    match probe {
        DirProbe::Readable => Ok(()),
        DirProbe::Missing => Err(AppError::new(ErrorCode::PathNotFound, join2("路径不存在: ", path))),
        DirProbe::NotDirectory => Err(AppError::new(ErrorCode::PathNotFound, join2("不是目录: ", path))),
        DirProbe::ReadFailed { kind, detail } => match kind {
            IoErrorKind::PermissionDenied => Err(
                AppError::new(ErrorCode::PermissionDenied, join2("权限不足: ", path)),
            ),
            IoErrorKind::NotFound => Err(AppError::new(ErrorCode::PathNotFound, join2("路径不存在: ", path))),
            IoErrorKind::Other => Err(
                AppError::new(ErrorCode::InternalError, join2("读取目录失败: ", detail.as_str())),
            ),
        },
    }
}

/// Between two entries of the same kind, the descending order is the
/// ascending order reversed, for every sort key.
pub proof fn law_descending_reverses_ascending(a: FileEntry, b: FileEntry, key: SortKey)
    requires
        a.is_folder == b.is_folder,
    ensures
        entry_order(a, b, key, false) == flip(entry_order(a, b, key, true)),
        entry_order(a, b, key, true) == Order::Less <==> entry_order(a, b, key, false)
            == Order::Greater,
{
}

/// Sorting by modification time or by size, entries of the same kind go
/// from the smallest value up when ascending and from the largest down when
/// descending.
pub proof fn law_numeric_keys_order(a: FileEntry, b: FileEntry)
    requires
        a.is_folder == b.is_folder,
    ensures
        a.modified < b.modified ==> entry_order(a, b, SortKey::Modified, true) == Order::Less
            && entry_order(a, b, SortKey::Modified, false) == Order::Greater,
        a.size < b.size ==> entry_order(a, b, SortKey::Size, true) == Order::Less && entry_order(
            a,
            b,
            SortKey::Size,
            false,
        ) == Order::Greater,
        a.modified == b.modified ==> entry_order(a, b, SortKey::Modified, true) == Order::Equal
            && entry_order(a, b, SortKey::Modified, false) == Order::Equal,
{
}

/// In a listing by modification time, of two entries of the same kind the
/// older comes first when ascending and the newer first when descending.
pub proof fn law_listing_by_modified(
    f: Seq<FileEntry>,
    ascending: bool,
    idx: Seq<usize>,
    p: int,
    q: int,
)
    requires
        is_listing_order(f, SortKey::Modified, ascending, idx),
        0 <= p < q < idx.len(),
        f[idx[p] as int].is_folder == f[idx[q] as int].is_folder,
    ensures
        ascending ==> f[idx[p] as int].modified <= f[idx[q] as int].modified,
        !ascending ==> f[idx[p] as int].modified >= f[idx[q] as int].modified,
{
    assert(precedes(f, SortKey::Modified, ascending, idx[p] as int, idx[q] as int));
}

/// In every listing order, folders come before files.
pub proof fn law_folders_first(a: FileEntry, b: FileEntry, key: SortKey, ascending: bool)
    requires
        a.is_folder,
        !b.is_folder,
    ensures
        entry_order(a, b, key, ascending) == Order::Less,
        entry_order(b, a, key, ascending) == Order::Greater,
{
}

} // verus!

verus! {

/// Two duplicate-free lists of the same entries, both in listing order,
/// are the same list.
proof fn lemma_sorted_lists_equal(
    f: Seq<FileEntry>,
    key: SortKey,
    ascending: bool,
    a: Seq<usize>,
    b: Seq<usize>,
)
    requires
        a.len() == b.len(),
        forall|k: int| 0 <= k < a.len() ==> a[k] < f.len(),
        forall|k: int| 0 <= k < b.len() ==> b[k] < f.len(),
        forall|p: int, q: int| 0 <= p < q < a.len() ==> a[p] != a[q],
        forall|p: int, q: int| 0 <= p < q < b.len() ==> b[p] != b[q],
        forall|x: usize| a.contains(x) <==> b.contains(x),
        forall|p: int, q: int| 0 <= p < q < a.len() ==> precedes(f, key, ascending, a[p] as int, a[q] as int),
        forall|p: int, q: int| 0 <= p < q < b.len() ==> precedes(f, key, ascending, b[p] as int, b[q] as int),
    ensures
        a == b,
    decreases a.len(),
{
    if a.len() == 0 {
        assert(a =~= b);
    } else {
        if a[0] != b[0] {
            assert(a.contains(b[0]));
            let p = choose|p: int| 0 <= p < a.len() && a[p] == b[0];
            assert(b.contains(a[0]));
            assert(a.contains(a[0]));
            let q = choose|q: int| 0 <= q < b.len() && b[q] == a[0];
            assert(p > 0 && q > 0);
            assert(precedes(f, key, ascending, a[0] as int, a[p] as int));
            assert(precedes(f, key, ascending, b[0] as int, b[q] as int));
            lemma_entry_order_antisym(f[a[0] as int], f[b[0] as int], key, ascending);
        }
        let a2 = a.drop_first();
        let b2 = b.drop_first();
        assert forall|x: usize| a2.contains(x) implies b2.contains(x) by {
            let k = choose|k: int| 0 <= k < a2.len() && a2[k] == x;
            assert(a[k + 1] == x);
            assert(a.contains(x));
            assert(b.contains(x));
            let m = choose|m: int| 0 <= m < b.len() && b[m] == x;
            assert(x != a[0]);
            assert(m != 0);
            assert(b2[m - 1] == x);
        }
        assert forall|x: usize| b2.contains(x) implies a2.contains(x) by {
            let k = choose|k: int| 0 <= k < b2.len() && b2[k] == x;
            assert(b[k + 1] == x);
            assert(b.contains(x));
            assert(a.contains(x));
            let m = choose|m: int| 0 <= m < a.len() && a[m] == x;
            assert(x != b[0]);
            assert(m != 0);
            assert(a2[m - 1] == x);
        }
        lemma_sorted_lists_equal(f, key, ascending, a2, b2);
        assert(a =~= b) by {
            assert forall|k: int| 0 <= k < a.len() implies a[k] == b[k] by {
                if k > 0 {
                    assert(a[k] == a2[k - 1]);
                    assert(b[k] == b2[k - 1]);
                }
            }
        }
    }
}

/// There is exactly one listing order of a set of entries.
pub proof fn law_listing_order_is_unique(
    f: Seq<FileEntry>,
    key: SortKey,
    ascending: bool,
    a: Seq<usize>,
    b: Seq<usize>,
)
    requires
        is_listing_order(f, key, ascending, a),
        is_listing_order(f, key, ascending, b),
    ensures
        a == b,
{
    assert forall|x: usize| a.contains(x) <==> b.contains(x) by {
        if a.contains(x) {
            let k = choose|k: int| 0 <= k < a.len() && a[k] == x;
            assert(b.contains(x as int as usize));
        }
        if b.contains(x) {
            let k = choose|k: int| 0 <= k < b.len() && b[k] == x;
            assert(a.contains(x as int as usize));
        }
    }
    lemma_sorted_lists_equal(f, key, ascending, a, b);
}

/// A page of a listing is the window of the whole listing that starts at
/// its offset: entry `k` of the page is entry `offset + k` of the listing,
/// and the page holds every entry of the window.
pub proof fn law_page_is_window_of_listing(
    shown: Seq<FileEntry>,
    key: SortKey,
    ascending: bool,
    page: Seq<FileEntry>,
    offset: int,
    limit: int,
    whole: Seq<FileEntry>,
    whole_limit: int,
    a: Seq<usize>,
    b: Seq<usize>,
)
    requires
        0 <= offset,
        0 <= limit,
        whole_limit >= shown.len(),
        is_listing_order(shown, key, ascending, a),
        is_page_of(page, shown, a, offset, limit),
        is_listing_order(shown, key, ascending, b),
        is_page_of(whole, shown, b, 0, whole_limit),
    ensures
        whole.len() == shown.len(),
        offset < shown.len() ==> page == whole.subrange(offset, window_end(shown.len() as int, offset, limit)),
        offset >= shown.len() ==> page.len() == 0,
{
    law_listing_order_is_unique(shown, key, ascending, a, b);
    if offset < shown.len() {
        let end = window_end(shown.len() as int, offset, limit);
        assert(page =~= whole.subrange(offset, end));
    }
}

} // verus!
