use vstd::prelude::*;
use crate::text::{chars_of, copy_chars, extend_chars, seq_starts_with, string_from_chars};

verus! {

// ---------------------------------------------------------------------------
// The lexical model of a Windows path.
//
// A path is read as: an optional prefix (`C:`, `\\server\share`,
// `\\?\C:`, `\\?\UNC\server\share`, `\\?\name`, `\\.\device`), an optional
// root separator, and a list of segments separated by `\`. Empty and `.`
// segments are dropped, `..` removes the segment before it.
// ---------------------------------------------------------------------------

/// `s` with every `/` replaced by `\`.
pub open spec fn backslashed(s: Seq<char>) -> Seq<char> {
    Seq::new(s.len(), |i: int| if s[i] == '/' { '\\' } else { s[i] })
}

/// `s` cut at every `\`, as `str::split('\\')` does (never empty).
pub open spec fn split_bs(s: Seq<char>) -> Seq<Seq<char>>
    decreases s.len(),
{
    if s.len() == 0 {
        seq![Seq::<char>::empty()]
    } else {
        let init = split_bs(s.drop_last());
        if s.last() == '\\' {
            init.push(Seq::<char>::empty())
        } else {
            init.update(init.len() - 1, init.last().push(s.last()))
        }
    }
}

pub proof fn lemma_split_bs_nonempty(s: Seq<char>)
    ensures
        split_bs(s).len() >= 1,
    decreases s.len(),
{
    if s.len() > 0 {
        lemma_split_bs_nonempty(s.drop_last());
    }
}

/// `c` is an ASCII letter.
pub open spec fn is_ascii_alpha(c: char) -> bool {
    ('a' <= c && c <= 'z') || ('A' <= c && c <= 'Z')
}

/// `s` is a drive designator such as `C:`.
pub open spec fn is_drive(s: Seq<char>) -> bool {
    s.len() == 2 && is_ascii_alpha(s[0]) && s[1] == ':'
}

/// `s` begins with a drive designator.
pub open spec fn starts_with_drive(s: Seq<char>) -> bool {
    s.len() >= 2 && is_ascii_alpha(s[0]) && s[1] == ':'
}

/// The parts of a path: its prefix text, whether it has a root, and the
/// segments that follow.
pub struct PathParts {
    pub prefix: Seq<char>,
    pub root: bool,
    pub rest: Seq<Seq<char>>,
}

/// Reads prefix, root and segments out of the `\`-split path.
pub open spec fn parse_parts(segs: Seq<Seq<char>>) -> PathParts {
    let bs = seq!['\\'];
    if segs.len() >= 3 && segs[0].len() == 0 && segs[1].len() == 0 {
        if segs[2] == seq!['?'] && segs.len() >= 4 {
            if segs[3] == seq!['U', 'N', 'C'] && segs.len() >= 5 {
                if segs.len() >= 6 {
                    PathParts {
                        prefix: seq!['\\', '\\', '?', '\\', 'U', 'N', 'C', '\\'] + segs[4] + bs
                            + segs[5],
                        root: true,
                        rest: segs.skip(6),
                    }
                } else {
                    PathParts {
                        prefix: seq!['\\', '\\', '?', '\\', 'U', 'N', 'C', '\\'] + segs[4],
                        root: true,
                        rest: segs.skip(5),
                    }
                }
            } else {
                PathParts {
                    prefix: seq!['\\', '\\', '?', '\\'] + segs[3],
                    root: true,
                    rest: segs.skip(4),
                }
            }
        } else if segs[2] == seq!['.'] && segs.len() >= 4 {
            PathParts { prefix: seq!['\\', '\\', '.', '\\'] + segs[3], root: true, rest: segs.skip(4) }
        } else if segs.len() >= 4 {
            PathParts {
                prefix: seq!['\\', '\\'] + segs[2] + bs + segs[3],
                root: true,
                rest: segs.skip(4),
            }
        } else {
            PathParts { prefix: seq!['\\', '\\'] + segs[2], root: true, rest: segs.skip(3) }
        }
    } else if segs.len() >= 2 && segs[0].len() == 0 {
        PathParts { prefix: Seq::<char>::empty(), root: true, rest: segs.skip(1) }
    } else if segs.len() >= 1 && starts_with_drive(segs[0]) {
        PathParts {
            prefix: segs[0].take(2),
            root: segs[0].len() == 2 && segs.len() >= 2,
            rest: seq![segs[0].skip(2)] + segs.skip(1),
        }
    } else {
        PathParts { prefix: Seq::<char>::empty(), root: false, rest: segs }
    }
}

/// One step of resolving segments: empty and `.` segments vanish, `..`
/// removes the last kept segment; with nothing left to remove it is kept
/// only after the prefix of a network path, and dropped otherwise.
pub open spec fn resolve_step(stack: Seq<Seq<char>>, seg: Seq<char>, keep_parent: bool) -> Seq<
    Seq<char>,
> {
    if seg.len() == 0 || seg == seq!['.'] {
        stack
    } else if seg == seq!['.', '.'] {
        if stack.len() > 0 {
            stack.drop_last()
        } else if keep_parent {
            seq![seq!['.', '.']]
        } else {
            stack
        }
    } else {
        stack.push(seg)
    }
}

/// The segments kept after resolving the first `n` of `segs`.
pub open spec fn resolve(segs: Seq<Seq<char>>, n: int, keep_parent: bool) -> Seq<Seq<char>>
    decreases n,
{
    if n <= 0 {
        Seq::empty()
    } else {
        resolve_step(resolve(segs, n - 1, keep_parent), segs[n - 1], keep_parent)
    }
}

/// The segments joined with `\`.
pub open spec fn join_bs(names: Seq<Seq<char>>) -> Seq<char>
    decreases names.len(),
{
    if names.len() == 0 {
        Seq::empty()
    } else if names.len() == 1 {
        names[0]
    } else {
        join_bs(names.drop_last()) + seq!['\\'] + names.last()
    }
}

/// `s` without its trailing `\` characters.
pub open spec fn trim_trailing_bs(s: Seq<char>) -> Seq<char>
    decreases s.len(),
{
    if s.len() > 0 && s.last() == '\\' {
        trim_trailing_bs(s.drop_last())
    } else {
        s
    }
}

/// The non-empty segments of `segs`, in order.
pub open spec fn nonempty_segs(segs: Seq<Seq<char>>) -> Seq<Seq<char>>
    decreases segs.len(),
{
    if segs.len() == 0 {
        Seq::empty()
    } else if segs.last().len() == 0 {
        nonempty_segs(segs.drop_last())
    } else {
        nonempty_segs(segs.drop_last()).push(segs.last())
    }
}

/// The final clean-up of a joined path: trailing separators go, a bare
/// drive keeps its root separator, and a network path that names at most a
/// server and a share is written `\\server\share`.
pub open spec fn finish(joined: Seq<char>) -> Seq<char> {
    let t = trim_trailing_bs(joined);
    let parts = nonempty_segs(split_bs(t));
    if t.len() >= 2 && t[t.len() - 1] == ':' && is_ascii_alpha(t[t.len() - 2]) {
        t.push('\\')
    } else if seq_starts_with(joined, seq!['\\', '\\']) && parts.len() <= 2 {
        if parts.len() == 0 {
            t
        } else if parts.len() == 1 {
            seq!['\\', '\\'] + parts[0]
        } else {
            seq!['\\', '\\'] + parts[0] + seq!['\\'] + parts[1]
        }
    } else {
        t
    }
}

/// The lexical normal form of a Windows path.
pub open spec fn normal_form(s: Seq<char>) -> Seq<char> {
    if s.len() == 0 {
        Seq::empty()
    } else {
        let p = backslashed(s);
        let parts = parse_parts(split_bs(p));
        let keep = seq_starts_with(p, seq!['\\', '\\']) && !seq_starts_with(
            p,
            seq!['\\', '\\', '?', '\\'],
        );
        let names = resolve(parts.rest, parts.rest.len() as int, keep);
        let joined = parts.prefix + (if parts.root {
            seq!['\\']
        } else {
            Seq::empty()
        }) + join_bs(names);
        finish(joined)
    }
}

} // verus!

verus! {

/// The characters of `s` with `/` turned into `\`.
pub fn backslash_chars(s: &str) -> (r: Vec<char>)
    ensures
        r@ == backslashed(s@),
{
    let c = chars_of(s);
    let mut r: Vec<char> = Vec::new();
    for i in 0..c.len()
        invariant
            c@ == s@,
            r@ == backslashed(s@).take(i as int),
    {
        if c[i] == '/' {
            r.push('\\');
        } else {
            r.push(c[i]);
        }
        assert(r@ =~= backslashed(s@).take(i + 1));
    }
    assert(r@ =~= backslashed(s@));
    r
}

/// Cuts `p` at every `\`.
pub fn split_backslash(p: &Vec<char>) -> (r: Vec<Vec<char>>)
    ensures
        r.deep_view() == split_bs(p@),
        r.len() >= 1,
{
    let mut done: Vec<Vec<char>> = Vec::new();
    let mut cur: Vec<char> = Vec::new();
    for i in 0..p.len()
        invariant
            done.deep_view().push(cur@) == split_bs(p@.take(i as int)),
    {
        proof {
            assert(p@.take(i + 1).drop_last() =~= p@.take(i as int));
            lemma_split_bs_nonempty(p@.take(i as int));
        }
        let ghost before = done.deep_view();
        if p[i] == '\\' {
            assert(cur.deep_view() =~= cur@);
            done.push(cur);
            cur = Vec::new();
            assert(done.deep_view() =~= before.push(split_bs(p@.take(i as int)).last()));
            assert(done.deep_view().push(cur@) =~= split_bs(p@.take(i + 1)));
        } else {
            cur.push(p[i]);
            assert(done.deep_view().push(cur@) =~= split_bs(p@.take(i + 1)));
        }
    }
    let ghost before = done.deep_view();
    assert(cur.deep_view() =~= cur@);
    done.push(cur);
    assert(p@.take(p.len() as int) =~= p@);
    assert(done.deep_view() =~= before.push(cur@));
    done
}

} // verus!

verus! {

/// A copy of the segments from index `k` on.
fn segs_from(segs: &Vec<Vec<char>>, k: usize) -> (r: Vec<Vec<char>>)
    requires
        k <= segs.len(),
    ensures
        r.deep_view() == segs.deep_view().skip(k as int),
{
    let mut r: Vec<Vec<char>> = Vec::new();
    let mut i = k;
    while i < segs.len()
        invariant
            k <= i <= segs.len(),
            r.deep_view() == segs.deep_view().subrange(k as int, i as int),
        decreases segs.len() - i,
    {
        let ghost before = r.deep_view();
        let c = copy_chars(&segs[i]);
        assert(c.deep_view() =~= c@);
        assert(segs@[i as int].deep_view() =~= segs@[i as int]@);
        r.push(c);
        assert(r.deep_view() =~= before.push(segs@[i as int]@));
        assert(r.deep_view() =~= segs.deep_view().subrange(k as int, i + 1));
        i = i + 1;
    }
    assert(segs.deep_view().subrange(k as int, segs.len() as int) =~= segs.deep_view().skip(
        k as int,
    ));
    r
}

fn is_single(seg: &Vec<char>, c: char) -> (r: bool)
    ensures
        r == (seg@ == seq![c]),
{
    if seg.len() == 1 && seg[0] == c {
        assert(seg@ =~= seq![c]);
        true
    } else {
        false
    }
}

fn is_unc_word(seg: &Vec<char>) -> (r: bool)
    ensures
        r == (seg@ == seq!['U', 'N', 'C']),
{
    if seg.len() == 3 && seg[0] == 'U' && seg[1] == 'N' && seg[2] == 'C' {
        assert(seg@ =~= seq!['U', 'N', 'C']);
        true
    } else {
        false
    }
}

fn ascii_alpha(c: char) -> (r: bool)
    ensures
        r == is_ascii_alpha(c),
{
    ('a' <= c && c <= 'z') || ('A' <= c && c <= 'Z')
}

/// Reads the prefix, root and segments of a split path.
pub fn parse_path_parts(segs: &Vec<Vec<char>>) -> (r: (Vec<char>, bool, Vec<Vec<char>>))
    ensures
        r.0@ == parse_parts(segs.deep_view()).prefix,
        r.1 == parse_parts(segs.deep_view()).root,
        r.2.deep_view() == parse_parts(segs.deep_view()).rest,
{
    let ghost d = segs.deep_view();
    proof {
        assert forall|i: int| 0 <= i < segs.len() implies d[i] == segs@[i]@ by {
            assert(segs@[i].deep_view() =~= segs@[i]@);
        }
    }
    let n = segs.len();
    if n >= 3 && segs[0].len() == 0 && segs[1].len() == 0 {
        if n >= 4 && is_single(&segs[2], '?') {
            if n >= 5 && is_unc_word(&segs[3]) {
                let mut prefix: Vec<char> = vec!['\\', '\\', '?', '\\', 'U', 'N', 'C', '\\'];
                extend_chars(&mut prefix, &segs[4]);
                if n >= 6 {
                    prefix.push('\\');
                    extend_chars(&mut prefix, &segs[5]);
                    assert(prefix@ =~= seq!['\\', '\\', '?', '\\', 'U', 'N', 'C', '\\'] + d[4]
                        + seq!['\\'] + d[5]);
                    (prefix, true, segs_from(segs, 6))
                } else {
                    (prefix, true, segs_from(segs, 5))
                }
            } else {
                let mut prefix: Vec<char> = vec!['\\', '\\', '?', '\\'];
                extend_chars(&mut prefix, &segs[3]);
                (prefix, true, segs_from(segs, 4))
            }
        } else if n >= 4 && is_single(&segs[2], '.') {
            let mut prefix: Vec<char> = vec!['\\', '\\', '.', '\\'];
            extend_chars(&mut prefix, &segs[3]);
            (prefix, true, segs_from(segs, 4))
        } else if n >= 4 {
            let mut prefix: Vec<char> = vec!['\\', '\\'];
            extend_chars(&mut prefix, &segs[2]);
            prefix.push('\\');
            extend_chars(&mut prefix, &segs[3]);
            assert(prefix@ =~= seq!['\\', '\\'] + d[2] + seq!['\\'] + d[3]);
            (prefix, true, segs_from(segs, 4))
        } else {
            let mut prefix: Vec<char> = vec!['\\', '\\'];
            extend_chars(&mut prefix, &segs[2]);
            (prefix, true, segs_from(segs, 3))
        }
    } else if n >= 2 && segs[0].len() == 0 {
        (Vec::new(), true, segs_from(segs, 1))
    } else if n >= 1 && segs[0].len() >= 2 && ascii_alpha(segs[0][0]) && segs[0][1] == ':' {
        let first = &segs[0];
        let prefix: Vec<char> = vec![first[0], first[1]];
        assert(prefix@ =~= d[0].take(2));
        let mut tail: Vec<char> = Vec::new();
        let mut i: usize = 2;
        while i < first.len()
            invariant
                2 <= i <= first.len(),
                tail@ == first@.subrange(2, i as int),
            decreases first.len() - i,
        {
            tail.push(first[i]);
            assert(tail@ =~= first@.subrange(2, i + 1));
            i = i + 1;
        }
        assert(tail@ =~= d[0].skip(2));
        let root = first.len() == 2 && n >= 2;
        let others = segs_from(segs, 1);
        let mut rest: Vec<Vec<char>> = Vec::new();
        assert(tail.deep_view() =~= tail@);
        rest.push(tail);
        let ghost r0 = rest.deep_view();
        assert(r0 =~= seq![d[0].skip(2)]);
        let mut j: usize = 0;
        while j < others.len()
            invariant
                rest.deep_view() == r0 + others.deep_view().take(j as int),
                j <= others.len(),
            decreases others.len() - j,
        {
            let ghost before = rest.deep_view();
            let c = copy_chars(&others[j]);
            assert(c.deep_view() =~= c@);
            assert(others@[j as int].deep_view() =~= others@[j as int]@);
            rest.push(c);
            assert(rest.deep_view() =~= before.push(others@[j as int]@));
            assert(rest.deep_view() =~= r0 + others.deep_view().take(j + 1));
            j = j + 1;
        }
        assert(others.deep_view().take(others.len() as int) =~= others.deep_view());
        (prefix, root, rest)
    } else {
        (Vec::new(), false, segs_from(segs, 0))
    }
}

} // verus!

verus! {

fn is_dotdot(seg: &Vec<char>) -> (r: bool)
    ensures
        r == (seg@ == seq!['.', '.']),
{
    if seg.len() == 2 && seg[0] == '.' && seg[1] == '.' {
        assert(seg@ =~= seq!['.', '.']);
        true
    } else {
        false
    }
}

/// Resolves `.`, `..` and empty segments.
pub fn resolve_segments(segs: &Vec<Vec<char>>, keep_parent: bool) -> (r: Vec<Vec<char>>)
    ensures
        r.deep_view() == resolve(segs.deep_view(), segs.len() as int, keep_parent),
{
    let ghost d = segs.deep_view();
    let mut stack: Vec<Vec<char>> = Vec::new();
    assert(stack.deep_view() =~= resolve(d, 0, keep_parent));
    for i in 0..segs.len()
        invariant
            d == segs.deep_view(),
            stack.deep_view() == resolve(d, i as int, keep_parent),
    {
        let ghost before = stack.deep_view();
        let seg = &segs[i];
        assert(d[i as int] =~= seg@);
        if seg.len() == 0 || is_single(seg, '.') {
        } else if is_dotdot(seg) {
            if stack.len() > 0 {
                stack.pop();
                assert(stack.deep_view() =~= before.drop_last());
            } else if keep_parent {
                let dd: Vec<char> = vec!['.', '.'];
                assert(dd.deep_view() =~= seq!['.', '.']);
                stack.push(dd);
                assert(stack.deep_view() =~= seq![seq!['.', '.']]);
            }
        } else {
            let c = copy_chars(seg);
            assert(c.deep_view() =~= c@);
            stack.push(c);
            assert(stack.deep_view() =~= before.push(seg@));
        }
    }
    stack
}

/// The segments joined with `\`.
pub fn join_segments(names: &Vec<Vec<char>>) -> (r: Vec<char>)
    ensures
        r@ == join_bs(names.deep_view()),
{
    let ghost d = names.deep_view();
    let mut out: Vec<char> = Vec::new();
    if names.len() == 0 {
        return out;
    }
    extend_chars(&mut out, &names[0]);
    assert(d.take(1).drop_last() =~= d.take(0));
    assert(out@ =~= names@[0]@);
    assert(out@ =~= join_bs(d.take(1)));
    let mut i: usize = 1;
    while i < names.len()
        invariant
            1 <= i <= names.len(),
            d == names.deep_view(),
            out@ == join_bs(d.take(i as int)),
        decreases names.len() - i,
    {
        out.push('\\');
        extend_chars(&mut out, &names[i]);
        assert(d.take(i + 1).drop_last() =~= d.take(i as int));
        assert(d.take(i + 1).last() =~= names@[i as int]@);
        i = i + 1;
    }
    assert(d.take(names.len() as int) =~= d);
    out
}

proof fn lemma_trim_trailing(s: Seq<char>, k: int)
    requires
        0 <= k <= s.len(),
        k == 0 || s[k - 1] != '\\',
        forall|j: int| k <= j < s.len() ==> s[j] == '\\',
    ensures
        trim_trailing_bs(s) == s.take(k),
    decreases s.len(),
{
    if s.len() > 0 && s.last() == '\\' {
        if k == s.len() {
            assert(s[k - 1] == '\\');
        }
        lemma_trim_trailing(s.drop_last(), k);
        assert(s.drop_last().take(k) =~= s.take(k));
    } else {
        if k < s.len() {
            assert(s[s.len() - 1] == '\\');
        }
        assert(s.take(k) =~= s);
    }
}

/// `v` without its trailing `\` characters.
pub fn trim_trailing_backslashes(v: &Vec<char>) -> (r: Vec<char>)
    ensures
        r@ == trim_trailing_bs(v@),
{
    let mut k = v.len();
    while k > 0 && v[k - 1] == '\\'
        invariant
            k <= v.len(),
            forall|j: int| k <= j < v.len() ==> v@[j] == '\\',
        decreases k,
    {
        k = k - 1;
    }
    proof {
        lemma_trim_trailing(v@, k as int);
    }
    let mut r: Vec<char> = Vec::new();
    for i in 0..k
        invariant
            k <= v.len(),
            r@ == v@.take(i as int),
    {
        r.push(v[i]);
        assert(r@ =~= v@.take(i + 1));
    }
    r
}

/// The non-empty segments, in order.
pub fn keep_nonempty(segs: &Vec<Vec<char>>) -> (r: Vec<Vec<char>>)
    ensures
        r.deep_view() == nonempty_segs(segs.deep_view()),
{
    let ghost d = segs.deep_view();
    let mut r: Vec<Vec<char>> = Vec::new();
    assert(r.deep_view() =~= nonempty_segs(d.take(0)));
    for i in 0..segs.len()
        invariant
            d == segs.deep_view(),
            r.deep_view() == nonempty_segs(d.take(i as int)),
    {
        let ghost before = r.deep_view();
        assert(d.take(i + 1).drop_last() =~= d.take(i as int));
        assert(d.take(i + 1).last() =~= segs@[i as int]@);
        if segs[i].len() > 0 {
            let c = copy_chars(&segs[i]);
            assert(c.deep_view() =~= c@);
            r.push(c);
            assert(r.deep_view() =~= before.push(segs@[i as int]@));
        }
    }
    assert(d.take(segs.len() as int) =~= d);
    r
}

/// The final clean-up of a joined path.
pub fn finish_path(joined: &Vec<char>) -> (r: Vec<char>)
    ensures
        r@ == finish(joined@),
{
    let t = trim_trailing_backslashes(joined);
    let split = split_backslash(&t);
    let parts = keep_nonempty(&split);
    let n = t.len();
    if n >= 2 && t[n - 1] == ':' && ascii_alpha(t[n - 2]) {
        let mut r = copy_chars(&t);
        r.push('\\');
        return r;
    }
    if joined.len() >= 2 && joined[0] == '\\' && joined[1] == '\\' && parts.len() <= 2 {
        assert(seq_starts_with(joined@, seq!['\\', '\\'])) by {
            assert(joined@.take(2) =~= seq!['\\', '\\']);
        }
        if parts.len() == 0 {
            return copy_chars(&t);
        }
        let mut r: Vec<char> = vec!['\\', '\\'];
        extend_chars(&mut r, &parts[0]);
        assert(parts@[0].deep_view() =~= parts@[0]@);
        if parts.len() == 2 {
            r.push('\\');
            extend_chars(&mut r, &parts[1]);
            assert(parts@[1].deep_view() =~= parts@[1]@);
            assert(r@ =~= seq!['\\', '\\'] + parts.deep_view()[0] + seq!['\\'] + parts.deep_view()[1]);
        }
        return r;
    }
    proof {
        if seq_starts_with(joined@, seq!['\\', '\\']) {
            assert(joined@[0] == joined@.take(2)[0]);
            assert(joined@[1] == joined@.take(2)[1]);
        }
    }
    copy_chars(&t)
}

/// The lexical normal form of a Windows path: `/` becomes `\`, `.` and
/// empty segments vanish, `..` removes the segment before it, trailing
/// separators go (a bare drive keeps its root separator), and network and
/// `\\?\` prefixes are kept.
pub fn normalize_lexical(path: &str) -> (r: String)
    ensures
        r@ == normal_form(path@),
{
    if path.is_empty() {
        return String::new();
    }
    let p = backslash_chars(path);
    let segs = split_backslash(&p);
    let (prefix, root, rest) = parse_path_parts(&segs);
    let unc_like = p.len() >= 2 && p[0] == '\\' && p[1] == '\\';
    let verbatim = p.len() >= 4 && p[0] == '\\' && p[1] == '\\' && p[2] == '?' && p[3] == '\\';
    proof {
        if p@.len() >= 2 {
            assert(seq_starts_with(p@, seq!['\\', '\\']) == (p@[0] == '\\' && p@[1] == '\\')) by {
                if p@[0] == '\\' && p@[1] == '\\' {
                    assert(p@.take(2) =~= seq!['\\', '\\']);
                } else if seq_starts_with(p@, seq!['\\', '\\']) {
                    assert(p@[0] == p@.take(2)[0]);
                    assert(p@[1] == p@.take(2)[1]);
                }
            }
        }
        if p@.len() >= 4 {
            assert(seq_starts_with(p@, seq!['\\', '\\', '?', '\\']) == (p@[0] == '\\' && p@[1]
                == '\\' && p@[2] == '?' && p@[3] == '\\')) by {
                if p@[0] == '\\' && p@[1] == '\\' && p@[2] == '?' && p@[3] == '\\' {
                    assert(p@.take(4) =~= seq!['\\', '\\', '?', '\\']);
                } else if seq_starts_with(p@, seq!['\\', '\\', '?', '\\']) {
                    assert(p@[0] == p@.take(4)[0]);
                    assert(p@[1] == p@.take(4)[1]);
                    assert(p@[2] == p@.take(4)[2]);
                    assert(p@[3] == p@.take(4)[3]);
                }
            }
        }
    }
    let keep = unc_like && !verbatim;
    let names = resolve_segments(&rest, keep);
    let mut joined = copy_chars(&prefix);
    if root {
        joined.push('\\');
    }
    let tail = join_segments(&names);
    extend_chars(&mut joined, &tail);
    proof {
        if !root {
            assert(prefix@ + Seq::<char>::empty() =~= prefix@);
        }
    }
    let ghost keep_spec = seq_starts_with(p@, seq!['\\', '\\']) && !seq_starts_with(
        p@,
        seq!['\\', '\\', '?', '\\'],
    );
    assert(keep == keep_spec);
    let ghost parts = parse_parts(split_bs(p@));
    assert(segs.deep_view() == split_bs(p@));
    assert(prefix@ == parts.prefix);
    assert(rest.deep_view() == parts.rest);
    assert(joined@ == parts.prefix + (if parts.root {
        seq!['\\']
    } else {
        Seq::empty()
    }) + join_bs(resolve(parts.rest, parts.rest.len() as int, keep_spec)));
    let fin = finish_path(&joined);
    string_from_chars(&fin)
}

} // verus!

verus! {

/// Whether `c` is an ASCII letter.
pub fn is_ascii_alpha_char(c: char) -> (r: bool)
    ensures
        r == is_ascii_alpha(c),
{
    ('a' <= c && c <= 'z') || ('A' <= c && c <= 'Z')
}

} // verus!

verus! {

/// A plain name: one segment that is neither empty, `.` nor `..`.
pub open spec fn is_plain_name(x: Seq<char>) -> bool {
    x.len() > 0 && x != seq!['.'] && x != seq!['.', '.']
}

proof fn lemma_resolve_prefix(segs: Seq<Seq<char>>, extra: Seq<Seq<char>>, n: int, keep_parent: bool)
    requires
        0 <= n <= segs.len(),
    ensures
        resolve(segs + extra, n, keep_parent) == resolve(segs, n, keep_parent),
    decreases n,
{
    if n > 0 {
        lemma_resolve_prefix(segs, extra, n - 1, keep_parent);
        assert((segs + extra)[n - 1] == segs[n - 1]);
    }
}

/// A `..` removes the segment just before it whenever one is kept.
pub proof fn law_dotdot_removes_last_kept(segs: Seq<Seq<char>>, keep_parent: bool)
    requires
        resolve(segs, segs.len() as int, keep_parent).len() > 0,
    ensures
        resolve(segs.push(seq!['.', '.']), (segs.len() + 1) as int, keep_parent) == resolve(
            segs,
            segs.len() as int,
            keep_parent,
        ).drop_last(),
{
    let all = segs.push(seq!['.', '.']);
    assert(all =~= segs + seq![seq!['.', '.']]);
    lemma_resolve_prefix(segs, seq![seq!['.', '.']], segs.len() as int, keep_parent);
    assert(all[segs.len() as int] == seq!['.', '.']);
    assert(resolve(all, segs.len() as int, keep_parent) == resolve(segs, segs.len() as int, keep_parent));
    assert(seq!['.', '.'] != seq!['.']) by {
        assert(seq!['.', '.'].len() != seq!['.'].len());
    }
}

/// A name followed by `..` cancels out: resolving segments, then a plain
/// name, then `..`, keeps just what resolving the segments keeps.
pub proof fn law_dotdot_undoes_name(segs: Seq<Seq<char>>, x: Seq<char>, keep_parent: bool)
    requires
        is_plain_name(x),
    ensures
        resolve(segs + seq![x, seq!['.', '.']], (segs.len() + 2) as int, keep_parent) == resolve(
            segs,
            segs.len() as int,
            keep_parent,
        ),
{
    let all = segs + seq![x, seq!['.', '.']];
    lemma_resolve_prefix(segs, seq![x, seq!['.', '.']], segs.len() as int, keep_parent);
    assert(all[segs.len() as int] == x);
    assert(all[(segs.len() + 1) as int] == seq!['.', '.']);
    let base = resolve(segs, segs.len() as int, keep_parent);
    assert(resolve(all, (segs.len() + 1) as int, keep_parent) == base.push(x));
    assert(base.push(x).drop_last() =~= base);
}

} // verus!

verus! {

proof fn lemma_backslashed_concat(a: Seq<char>, b: Seq<char>)
    ensures
        backslashed(a + b) == backslashed(a) + backslashed(b),
{
    assert(backslashed(a + b) =~= backslashed(a) + backslashed(b));
}

proof fn lemma_split_without_separator(s: Seq<char>)
    requires
        forall|i: int| 0 <= i < s.len() ==> s[i] != '\\',
    ensures
        split_bs(s) == seq![s],
    decreases s.len(),
{
    if s.len() > 0 {
        lemma_split_without_separator(s.drop_last());
        assert(s.last() != '\\');
        assert(s.drop_last().push(s.last()) =~= s);
        assert(seq![s.drop_last()].update(0, s.drop_last().push(s.last())) =~= seq![s]);
    } else {
        assert(s =~= Seq::<char>::empty());
    }
}

proof fn lemma_split_at_separator(a: Seq<char>, b: Seq<char>)
    ensures
        split_bs(a + seq!['\\'] + b) == split_bs(a) + split_bs(b),
    decreases b.len(),
{
    lemma_split_bs_nonempty(a);
    if b.len() == 0 {
        assert(a + seq!['\\'] + b =~= a.push('\\'));
        assert((a + seq!['\\'] + b).drop_last() =~= a);
        assert(split_bs(a).push(Seq::<char>::empty()) =~= split_bs(a) + split_bs(b));
    } else {
        let c = a + seq!['\\'] + b;
        assert(c.drop_last() =~= a + seq!['\\'] + b.drop_last());
        assert(c.last() == b.last());
        lemma_split_at_separator(a, b.drop_last());
        lemma_split_bs_nonempty(b.drop_last());
        let sa = split_bs(a);
        let sb = split_bs(b.drop_last());
        if b.last() == '\\' {
            assert((sa + sb).push(Seq::<char>::empty()) =~= sa + sb.push(Seq::<char>::empty()));
        } else {
            let init = sa + sb;
            assert(init.update(init.len() - 1, init.last().push(b.last())) =~= sa + sb.update(
                sb.len() - 1,
                sb.last().push(b.last()),
            ));
        }
    }
}

/// After a drive root, a plain name followed by `..` cancels out in the
/// normal form: `C:\p\x\..` normalizes as `C:\p` does.
pub proof fn law_normal_form_dotdot_undoes_name(p: Seq<char>, x: Seq<char>)
    requires
        p.len() >= 3,
        is_ascii_alpha(p[0]),
        p[1] == ':',
        p[2] == '\\' || p[2] == '/',
        is_plain_name(x),
        forall|i: int| 0 <= i < x.len() ==> x[i] != '\\' && x[i] != '/',
    ensures
        normal_form(p + seq!['\\'] + x + seq!['\\', '.', '.']) == normal_form(p),
{
    let dd = seq!['.', '.'];
    let p2 = p + seq!['\\'] + x + seq!['\\', '.', '.'];
    let q = backslashed(p);
    let tail = x + seq!['\\'] + dd;
    // the separators-only form of the longer path
    lemma_backslashed_concat(p + seq!['\\'], x + seq!['\\', '.', '.']);
    lemma_backslashed_concat(p, seq!['\\']);
    assert(p2 =~= (p + seq!['\\']) + (x + seq!['\\', '.', '.']));
    assert(backslashed(seq!['\\']) =~= seq!['\\']);
    assert(backslashed(x + seq!['\\', '.', '.']) =~= tail);
    let q2 = backslashed(p2);
    assert(q2 =~= q + seq!['\\'] + tail);
    // splitting
    let d = q.take(2);
    let r = q.skip(3);
    assert(q =~= d + seq!['\\'] + r);
    lemma_split_at_separator(d, r);
    lemma_split_without_separator(d);
    lemma_split_bs_nonempty(r);
    lemma_split_at_separator(q, tail);
    lemma_split_at_separator(x, dd);
    lemma_split_without_separator(x);
    lemma_split_without_separator(dd);
    let segs = split_bs(q);
    let segs2 = split_bs(q2);
    assert(segs == seq![d] + split_bs(r));
    assert(segs2 == segs + seq![x, dd]);
    assert(segs[0] == d);
    assert(segs2[0] == d);
    // parsing
    let parts = parse_parts(segs);
    let parts2 = parse_parts(segs2);
    assert(parts2.prefix == parts.prefix);
    assert(parts2.root == parts.root);
    assert(segs2.skip(1) =~= segs.skip(1) + seq![x, dd]);
    assert(parts2.rest =~= parts.rest + seq![x, dd]);
    // resolving
    assert(!seq_starts_with(q, seq!['\\', '\\'])) by {
        assert(q.take(2)[0] == q[0]);
    }
    assert(!seq_starts_with(q2, seq!['\\', '\\'])) by {
        assert(q2.take(2)[0] == q2[0]);
        assert(q2[0] == q[0]);
    }
    law_dotdot_undoes_name(parts.rest, x, false);
}

} // verus!
