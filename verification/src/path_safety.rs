use vstd::prelude::*;
use crate::error::{is_plain_error, AppError, ErrorCode};
use crate::normalize::{is_ascii_alpha, trim_trailing_backslashes, trim_trailing_bs};
use crate::text::{
    chars_of, chars_start_with, join2, lowercase, seq_starts_with, to_lowercase, to_uppercase,
    uppercase,
};

verus! {

/// The longest name, in characters, that one path component may have.
pub const MAX_COMPONENT_LENGTH: usize = 255;

/// Characters Windows does not allow in a file name.
pub open spec fn is_illegal_char(c: char) -> bool {
    c == '<' || c == '>' || c == ':' || c == '"' || c == '|' || c == '?' || c == '*'
}

/// Control characters (below U+0020).
pub open spec fn is_control_char(c: char) -> bool {
    (c as u32) < 0x20
}

/// Characters with the Unicode `White_Space` property, which
/// `char::is_whitespace` and `str::trim` go by.
pub open spec fn is_white_space(c: char) -> bool {
    let u = c as u32;
    (0x09 <= u && u <= 0x0d) || u == 0x20 || u == 0x85 || u == 0xa0 || u == 0x1680 || (0x2000
        <= u && u <= 0x200a) || u == 0x2028 || u == 0x2029 || u == 0x202f || u == 0x205f || u
        == 0x3000
}

/// Every character of `s` is white space.
pub open spec fn all_white_space(s: Seq<char>) -> bool {
    forall|i: int| 0 <= i < s.len() ==> is_white_space(#[trigger] s[i])
}

/// A character that `validate_child_name` rejects wherever it stands.
pub open spec fn is_bad_char(c: char) -> bool {
    is_illegal_char(c) || is_control_char(c)
}

/// The index of the first rejected character at or after `i`, or the length.
pub open spec fn first_bad_from(s: Seq<char>, i: int) -> int
    decreases s.len() - i,
{
    if i >= s.len() {
        s.len() as int
    } else if is_bad_char(s[i]) {
        i
    } else {
        first_bad_from(s, i + 1)
    }
}

/// The index of the last `.` in `s`, or -1.
pub open spec fn last_dot(s: Seq<char>) -> int
    decreases s.len(),
{
    if s.len() == 0 {
        -1
    } else if s.last() == '.' {
        s.len() - 1
    } else {
        last_dot(s.drop_last())
    }
}

/// The name without its extension (the part before the last `.`).
pub open spec fn stem_of(s: Seq<char>) -> Seq<char> {
    if last_dot(s) >= 0 {
        s.take(last_dot(s))
    } else {
        s
    }
}

/// The device names Windows reserves, in upper case.
pub open spec fn is_reserved_name(u: Seq<char>) -> bool {
    u == "CON"@ || u == "PRN"@ || u == "AUX"@ || u == "NUL"@ || u == "COM1"@ || u == "COM2"@
        || u == "COM3"@ || u == "COM4"@ || u == "COM5"@ || u == "COM6"@ || u == "COM7"@ || u
        == "COM8"@ || u == "COM9"@ || u == "LPT1"@ || u == "LPT2"@ || u == "LPT3"@ || u
        == "LPT4"@ || u == "LPT5"@ || u == "LPT6"@ || u == "LPT7"@ || u == "LPT8"@ || u
        == "LPT9"@
}

/// The message for a name that fails one of the checks before the
/// reserved-name check, in the order the checks are made; `None` if it
/// passes them.
pub open spec fn child_name_problem(name: Seq<char>) -> Option<Seq<char>> {
    if name.len() == 0 {
        Some("文件名不能为空"@)
    } else if all_white_space(name) {
        Some("文件名不能全为空白字符"@)
    } else if name.len() > 255 {
        Some("文件名过长（超过 255 字符）"@)
    } else if name.last() == ' ' {
        Some("文件名不能以空格结尾"@)
    } else if name.last() == '.' {
        Some("文件名不能以点号结尾"@)
    } else if first_bad_from(name, 0) < name.len() {
        let c = name[first_bad_from(name, 0)];
        if is_illegal_char(c) {
            Some("文件名包含非法字符：'"@ + seq![c] + "'"@)
        } else {
            Some("文件名包含控制字符"@)
        }
    } else {
        None
    }
}

/// An error of code `InternalError` with message `msg`, as `AppError::new`
/// makes it.
pub open spec fn is_internal_error(e: AppError, msg: Seq<char>) -> bool {
    e.code == ErrorCode::InternalError && e.message@ == msg && !e.retryable
        && e.refresh_suggestion.is_none()
}


pub(crate) fn white_space(c: char) -> (r: bool)
    ensures
        r == is_white_space(c),
{
    let u = c as u32;
    (0x09 <= u && u <= 0x0d) || u == 0x20 || u == 0x85 || u == 0xa0 || u == 0x1680 || (0x2000
        <= u && u <= 0x200a) || u == 0x2028 || u == 0x2029 || u == 0x202f || u == 0x205f || u
        == 0x3000
}

fn illegal_char(c: char) -> (r: bool)
    ensures
        r == is_illegal_char(c),
{
    c == '<' || c == '>' || c == ':' || c == '"' || c == '|' || c == '?' || c == '*'
}

proof fn lemma_first_bad_skip(s: Seq<char>, i: int)
    requires
        0 <= i <= s.len(),
        forall|j: int| 0 <= j < i ==> !is_bad_char(#[trigger] s[j]),
    ensures
        first_bad_from(s, 0) == first_bad_from(s, i),
    decreases i,
{
    if i > 0 {
        lemma_first_bad_skip(s, i - 1);
        assert(!is_bad_char(s[i - 1]));
    }
}

proof fn lemma_last_dot(s: Seq<char>, k: int)
    requires
        -1 <= k < s.len(),
        k == -1 || s[k] == '.',
        forall|j: int| k < j < s.len() ==> s[j] != '.',
    ensures
        last_dot(s) == k,
    decreases s.len(),
{
    if s.len() > 0 {
        if s.last() != '.' {
            assert(k != s.len() - 1);
            lemma_last_dot(s.drop_last(), k);
        }
    }
}

/// Whether `u` (an upper-case stem) is a device name Windows reserves.
pub fn is_reserved_device_name(u: &String) -> (r: bool)
    ensures
        r == is_reserved_name(u@),
{
    let names = [
        "CON", "PRN", "AUX", "NUL", "COM1", "COM2", "COM3", "COM4", "COM5", "COM6", "COM7",
        "COM8", "COM9", "LPT1", "LPT2", "LPT3", "LPT4", "LPT5", "LPT6", "LPT7", "LPT8", "LPT9",
    ];
    let mut found = false;
    for i in 0..22
        invariant
            names@ == seq![
                "CON", "PRN", "AUX", "NUL", "COM1", "COM2", "COM3", "COM4", "COM5", "COM6",
                "COM7", "COM8", "COM9", "LPT1", "LPT2", "LPT3", "LPT4", "LPT5", "LPT6", "LPT7",
                "LPT8", "LPT9",
            ],
            found == exists|j: int| 0 <= j < i && u@ == (#[trigger] names@[j])@,
    {
        let candidate = String::from_str(names[i]);
        if candidate == *u {
            found = true;
        }
    }
    assert(found == is_reserved_name(u@)) by {
        if is_reserved_name(u@) {
            if u@ == "CON"@ { assert(u@ == names@[0]@); }
            else if u@ == "PRN"@ { assert(u@ == names@[1]@); }
            else if u@ == "AUX"@ { assert(u@ == names@[2]@); }
            else if u@ == "NUL"@ { assert(u@ == names@[3]@); }
            else if u@ == "COM1"@ { assert(u@ == names@[4]@); }
            else if u@ == "COM2"@ { assert(u@ == names@[5]@); }
            else if u@ == "COM3"@ { assert(u@ == names@[6]@); }
            else if u@ == "COM4"@ { assert(u@ == names@[7]@); }
            else if u@ == "COM5"@ { assert(u@ == names@[8]@); }
            else if u@ == "COM6"@ { assert(u@ == names@[9]@); }
            else if u@ == "COM7"@ { assert(u@ == names@[10]@); }
            else if u@ == "COM8"@ { assert(u@ == names@[11]@); }
            else if u@ == "COM9"@ { assert(u@ == names@[12]@); }
            else if u@ == "LPT1"@ { assert(u@ == names@[13]@); }
            else if u@ == "LPT2"@ { assert(u@ == names@[14]@); }
            else if u@ == "LPT3"@ { assert(u@ == names@[15]@); }
            else if u@ == "LPT4"@ { assert(u@ == names@[16]@); }
            else if u@ == "LPT5"@ { assert(u@ == names@[17]@); }
            else if u@ == "LPT6"@ { assert(u@ == names@[18]@); }
            else if u@ == "LPT7"@ { assert(u@ == names@[19]@); }
            else if u@ == "LPT8"@ { assert(u@ == names@[20]@); }
            else { assert(u@ == names@[21]@); }
        }
    }
    found
}

/// Checks a name for a new or renamed file or folder: it must not be empty
/// or all white space, longer than 255 characters, end in a space or a
/// dot, hold `< > : " | ? *` or a control character, or have a reserved
/// device name (such as `CON` or `com1.txt`) as its stem, in any case.
pub fn validate_child_name(name: &str) -> (r: Result<(), AppError>)
    ensures
        child_name_problem(name@) matches Some(msg) ==> (
        r matches Err(e) && is_internal_error(e, msg)),
        child_name_problem(name@) is None && is_reserved_name(
            uppercase(stem_of(name@)),
        ) ==> (r matches Err(e) && is_internal_error(
            e,
            "'"@ + name@ + "' 是 Windows 保留名，不能用作文件名"@,
        )),
        child_name_problem(name@) is None && !is_reserved_name(
            uppercase(stem_of(name@)),
        ) ==> r is Ok,
{
    let c = chars_of(name);
    let n = c.len();
    if n == 0 {
        return Err(AppError::new(ErrorCode::InternalError, String::from_str("文件名不能为空")));
    }
    let mut all_ws = true;
    for i in 0..n
        invariant
            n == c.len(),
            c@ == name@,
            all_ws == forall|j: int| 0 <= j < i ==> is_white_space(#[trigger] c@[j]),
    {
        if !white_space(c[i]) {
            all_ws = false;
        }
    }
    if all_ws {
        return Err(
            AppError::new(ErrorCode::InternalError, String::from_str("文件名不能全为空白字符")),
        );
    }
    if n > MAX_COMPONENT_LENGTH {
        return Err(
            AppError::new(
                ErrorCode::InternalError,
                String::from_str("文件名过长（超过 255 字符）"),
            ),
        );
    }
    if c[n - 1] == ' ' {
        return Err(
            AppError::new(ErrorCode::InternalError, String::from_str("文件名不能以空格结尾")),
        );
    }
    if c[n - 1] == '.' {
        return Err(
            AppError::new(ErrorCode::InternalError, String::from_str("文件名不能以点号结尾")),
        );
    }
    for i in 0..n
        invariant
            n == c.len(),
            c@ == name@,
            forall|j: int| 0 <= j < i ==> !is_bad_char(#[trigger] c@[j]),
            n > 0,
            !all_white_space(name@),
            n <= 255,
            c@[n - 1] != ' ',
            c@[n - 1] != '.',
    {
        let ch = c[i];
        if illegal_char(ch) {
            proof {
                lemma_first_bad_skip(c@, i as int);
                assert(first_bad_from(c@, i as int) == i as int);
            }
            let mut msg = String::from_str("文件名包含非法字符：'");
            crate::text::push_char(&mut msg, ch);
            msg.append("'");
            assert(msg@ =~= "文件名包含非法字符：'"@ + seq![ch] + "'"@);
            return Err(AppError::new(ErrorCode::InternalError, msg));
        }
        if (ch as u32) < 0x20 {
            proof {
                lemma_first_bad_skip(c@, i as int);
                assert(first_bad_from(c@, i as int) == i as int);
            }
            return Err(
                AppError::new(ErrorCode::InternalError, String::from_str("文件名包含控制字符")),
            );
        }
    }
    proof {
        lemma_first_bad_skip(c@, n as int);
    }
    // the stem: everything before the last dot
    let mut k: usize = n;
    let mut pos: Option<usize> = None;
    while k > 0
        invariant
            k <= n,
            n == c.len(),
            pos is None ==> forall|j: int| k <= j < n ==> c@[j] != '.',
            pos matches Some(p) ==> p < n && c@[p as int] == '.' && forall|j: int|
                p < j < n ==> c@[j] != '.',
        decreases k,
    {
        if pos.is_none() && c[k - 1] == '.' {
            pos = Some(k - 1);
        }
        k = k - 1;
    }
    let stem_upper = match pos {
        Some(p) => {
            proof {
                lemma_last_dot(c@, p as int);
            }
            let stem = name.substring_char(0, p);
            to_uppercase(stem)
        },
        None => {
            proof {
                lemma_last_dot(c@, -1);
            }
            to_uppercase(name)
        },
    };
    if is_reserved_device_name(&stem_upper) {
        let mut msg = String::from_str("'");
        msg.append(name);
        msg.append("' 是 Windows 保留名，不能用作文件名");
        return Err(AppError::new(ErrorCode::InternalError, msg));
    }
    Ok(())
}

} // verus!

verus! {

/// `target` lies in the directory `root`: compared without regard to case,
/// it is `root` itself (without trailing separators) or begins with `root`
/// followed by a separator.
pub open spec fn is_under(target: Seq<char>, root: Seq<char>) -> bool {
    let tl = lowercase(target);
    let rl = lowercase(root);
    let root_prefix = if rl.len() > 0 && rl.last() == '\\' {
        rl
    } else {
        rl.push('\\')
    };
    target.len() > 0 && root.len() > 0 && (tl == trim_trailing_bs(rl) || seq_starts_with(
        tl,
        root_prefix,
    ))
}

/// Whether `target` lies in the directory `root` (see `is_under`).
pub fn path_is_under(target: &str, root: &str) -> (r: bool)
    ensures
        r == is_under(target@, root@),
{
    if target.is_empty() || root.is_empty() {
        return false;
    }
    let tl = chars_of(to_lowercase(target).as_str());
    let rl = chars_of(to_lowercase(root).as_str());
    let mut root_prefix = crate::text::copy_chars(&rl);
    if !(rl.len() > 0 && rl[rl.len() - 1] == '\\') {
        root_prefix.push('\\');
    }
    let trimmed = trim_trailing_backslashes(&rl);
    if crate::text::chars_eq(&tl, &trimmed) {
        return true;
    }
    starts_with_chars(&tl, &root_prefix)
}

/// Whether `v` begins with `p`.
pub fn starts_with_chars(v: &Vec<char>, p: &Vec<char>) -> (r: bool)
    ensures
        r == seq_starts_with(v@, p@),
{
    if p.len() > v.len() {
        return false;
    }
    for i in 0..p.len()
        invariant
            p.len() <= v.len(),
            forall|j: int| 0 <= j < i ==> v@[j] == p@[j],
    {
        if v[i] != p[i] {
            assert(v@.take(p.len() as int)[i as int] != p@[i as int]);
            return false;
        }
    }
    assert(v@.take(p.len() as int) =~= p@);
    true
}

/// A network path: `\\server\share...` or `\\?\UNC\...`.
pub open spec fn is_unc(p: Seq<char>) -> bool {
    (seq_starts_with(p, "\\\\"@) && !seq_starts_with(p, "\\\\?\\"@)) || seq_starts_with(
        p,
        "\\\\?\\UNC\\"@,
    )
}

/// Whether `path` is a network path.
pub fn is_unc_path(path: &str) -> (r: bool)
    ensures
        r == is_unc(path@),
{
    let c = chars_of(path);
    (chars_start_with(&c, "\\\\") && !chars_start_with(&c, "\\\\?\\")) || chars_start_with(
        &c,
        "\\\\?\\UNC\\",
    )
}

/// The normal form of a path given what the file system said of it:
/// `canonical` is the canonical form of the path (with `/` turned into
/// `\`) when the path exists and could be resolved. A canonical form gets
/// its `\\?\` prefix removed unless the path itself had one; without one
/// the lexical normal form is used.
pub open spec fn normalized_with(path: Seq<char>, canonical: Option<Seq<char>>) -> Seq<char> {
    if path.len() == 0 {
        Seq::empty()
    } else {
        match canonical {
            Some(c) => if seq_starts_with(c, "\\\\?\\"@) && !seq_starts_with(
                crate::normalize::backslashed(path),
                "\\\\?\\"@,
            ) {
                c.skip(4)
            } else {
                c
            },
            None => crate::normalize::normal_form(path),
        }
    }
}

/// Normalizes a path: see `normalized_with`.
pub fn normalize_path(path: &str, canonical: Option<&str>) -> (r: String)
    ensures
        r@ == normalized_with(path@, match canonical {
            Some(c) => Some(c@),
            None => None,
        }),
{
    if path.is_empty() {
        return String::new();
    }
    match canonical {
        Some(c) => {
            let cc = chars_of(c);
            let p = crate::normalize::backslash_chars(path);
            if chars_start_with(&cc, "\\\\?\\") && !chars_start_with(&p, "\\\\?\\") {
                let mut rest: Vec<char> = Vec::new();
                let mut i: usize = 4;
                proof {
                    reveal_strlit("\\\\?\\");
                }
                while i < cc.len()
                    invariant
                        4 <= i <= cc.len(),
                        rest@ == cc@.subrange(4, i as int),
                    decreases cc.len() - i,
                {
                    rest.push(cc[i]);
                    assert(rest@ =~= cc@.subrange(4, i + 1));
                    i = i + 1;
                }
                assert(rest@ =~= cc@.skip(4));
                crate::text::string_from_chars(&rest)
            } else {
                String::from_str(c)
            }
        },
        None => crate::normalize::normalize_lexical(path),
    }
}

/// How a path relates to the file system.
#[derive(Clone, Debug)]
pub enum PathClass {
    /// An ordinary local file or directory.
    LocalFile,
    /// A symbolic link, junction or mount point.
    ReparsePoint { is_symlink: bool, target: Option<String> },
    /// A network path.
    UncPath,
    /// A path on a `subst` drive or a mapped network drive.
    SubstDrive,
    /// Nothing exists at the path.
    NotFound,
    /// The class could not be determined.
    Unknown,
}

/// What reading the metadata of a path (without following links) gave.
#[derive(Clone, Debug)]
pub enum MetadataProbe {
    /// The metadata: its Windows attribute bits, whether it is a symbolic
    /// link, and the link's target when it is one and could be read.
    Found { attributes: u32, is_symlink: bool, link_target: Option<String> },
    /// The path does not exist.
    NotFound,
    /// Any other failure.
    Failed,
}

/// The Windows attribute bit of reparse points.
pub const FILE_ATTRIBUTE_REPARSE_POINT: u32 = 0x400;

/// The class that the metadata of a local path gives it.
pub open spec fn class_from_metadata(m: MetadataProbe) -> PathClass {
    match m {
        MetadataProbe::Found { attributes, is_symlink, link_target } => if attributes & 0x400u32
            != 0 {
            PathClass::ReparsePoint {
                is_symlink,
                target: if is_symlink {
                    link_target
                } else {
                    None
                },
            }
        } else {
            PathClass::LocalFile
        },
        MetadataProbe::NotFound => PathClass::NotFound,
        MetadataProbe::Failed => PathClass::Unknown,
    }
}

} // verus!

verus! {

/// The upper-case form of an ASCII letter; other characters are kept.
pub open spec fn ascii_upper(c: char) -> char {
    if 'a' <= c && c <= 'z' {
        ((c as u32) - 32) as char
    } else {
        c
    }
}

/// The lower-case form of an ASCII letter; other characters are kept.
pub open spec fn ascii_lower(c: char) -> char {
    if 'A' <= c && c <= 'Z' {
        ((c as u32) + 32) as char
    } else {
        c
    }
}

pub(crate) fn to_ascii_upper(c: char) -> (r: char)
    ensures
        r == ascii_upper(c),
{
    if 'a' <= c && c <= 'z' {
        ((c as u8) - 32) as char
    } else {
        c
    }
}

fn to_ascii_lower(c: char) -> (r: char)
    ensures
        r == ascii_lower(c),
{
    if 'A' <= c && c <= 'Z' {
        ((c as u8) + 32) as char
    } else {
        c
    }
}

/// The drive letter (in upper case) that a path begins with: `C:...` or
/// `\\?\C:` followed by nothing or a `\`.
pub open spec fn drive_letter(p: Seq<char>) -> Option<char> {
    if p.len() >= 2 && is_ascii_alpha(p[0]) && p[1] == ':' {
        Some(ascii_upper(p[0]))
    } else if p.len() >= 6 && seq_starts_with(p, "\\\\?\\"@) && is_ascii_alpha(p[4]) && p[5]
        == ':' && (p.len() == 6 || p[6] == '\\') {
        Some(ascii_upper(p[4]))
    } else {
        None
    }
}

/// The drive letter a path begins with (see `drive_letter`).
pub fn drive_letter_of(path: &str) -> (r: Option<char>)
    ensures
        r == drive_letter(path@),
{
    let p = chars_of(path);
    if p.len() >= 2 && crate::normalize::is_ascii_alpha_char(p[0]) && p[1] == ':' {
        return Some(to_ascii_upper(p[0]));
    }
    proof {
        reveal_strlit("\\\\?\\");
    }
    if p.len() >= 6 && chars_start_with(&p, "\\\\?\\") && crate::normalize::is_ascii_alpha_char(
        p[4],
    ) && p[5] == ':' && (p.len() == 6 || p[6] == '\\') {
        return Some(to_ascii_upper(p[4]));
    }
    None
}

/// The root directory of a drive, such as `C:\`.
pub fn drive_root(letter: char) -> (r: String)
    ensures
        r@ == seq![letter, ':', '\\'],
{
    let mut s = String::new();
    crate::text::push_char(&mut s, letter);
    crate::text::push_char(&mut s, ':');
    crate::text::push_char(&mut s, '\\');
    assert(s@ =~= seq![letter, ':', '\\']);
    s
}

/// Whether the canonical form of a drive's root shows a `subst` drive or a
/// mapped network drive: it is a network path, or it names another drive.
pub open spec fn is_substituted(drive: char, canonical_root: Seq<char>) -> bool {
    let c = canonical_root;
    let rest = if seq_starts_with(c, "\\\\?\\"@) {
        c.skip(4)
    } else {
        c
    };
    if seq_starts_with(c, "\\\\?\\UNC\\"@) || (seq_starts_with(c, "\\\\"@) && !seq_starts_with(
        c,
        "\\\\?\\"@,
    )) {
        true
    } else {
        rest.len() >= 2 && is_ascii_alpha(rest[0]) && rest[1] == ':' && ascii_lower(rest[0])
            != ascii_lower(drive)
    }
}

/// Whether `canonical_root`, the canonical form of the root of drive
/// `drive`, shows a `subst` or mapped network drive.
pub fn drive_is_substituted(drive: char, canonical_root: &str) -> (r: bool)
    ensures
        r == is_substituted(drive, canonical_root@),
{
    let c = chars_of(canonical_root);
    proof {
        reveal_strlit("\\\\?\\");
    }
    if chars_start_with(&c, "\\\\?\\UNC\\") || (chars_start_with(&c, "\\\\") && !chars_start_with(
        &c,
        "\\\\?\\",
    )) {
        return true;
    }
    let off: usize = if chars_start_with(&c, "\\\\?\\") {
        4
    } else {
        0
    };
    if c.len() >= off + 2 && crate::normalize::is_ascii_alpha_char(c[off]) && c[off + 1] == ':' {
        let rest_first = c[off];
        assert(rest_first == (if off == 4 {
            c@.skip(4)
        } else {
            c@
        })[0]);
        assert(c[off + 1] == (if off == 4 {
            c@.skip(4)
        } else {
            c@
        })[1]);
        return to_ascii_lower(rest_first) != to_ascii_lower(drive);
    }
    proof {
        let rest = if off == 4 {
            c@.skip(4)
        } else {
            c@
        };
        if rest.len() >= 2 {
            assert(rest[0] == c@[off as int]);
            assert(rest[1] == c@[off + 1]);
        }
    }
    false
}

/// The class of a path given what the file system said: `normalized` is the
/// path's normal form, `canonical_root` the canonical form of the root of
/// the drive the path begins with (when it has one, that root exists and
/// could be resolved), `metadata` what reading the path's own metadata gave.
pub open spec fn classify(
    path: Seq<char>,
    normalized: Seq<char>,
    canonical_root: Option<Seq<char>>,
    metadata: MetadataProbe,
) -> PathClass {
    if path.len() == 0 {
        PathClass::Unknown
    } else if is_unc(normalized) {
        PathClass::UncPath
    } else if drive_letter(path) is Some && canonical_root is Some && is_substituted(
        drive_letter(path)->0,
        canonical_root->0,
    ) {
        PathClass::SubstDrive
    } else {
        class_from_metadata(metadata)
    }
}

/// Classifies a path (see `classify`): network paths first, then `subst`
/// and mapped drives, then reparse points, local files and missing paths.
pub fn classify_path(
    path: &str,
    normalized: &str,
    canonical_root: Option<&str>,
    metadata: MetadataProbe,
) -> (r: PathClass)
    ensures
        r == classify(path@, normalized@, match canonical_root {
            Some(c) => Some(c@),
            None => None,
        }, metadata),
{
    if path.is_empty() {
        return PathClass::Unknown;
    }
    if is_unc_path(normalized) {
        return PathClass::UncPath;
    }
    match (drive_letter_of(path), canonical_root) {
        (Some(d), Some(c)) => {
            if drive_is_substituted(d, c) {
                return PathClass::SubstDrive;
            }
        },
        _ => {},
    }
    match metadata {
        MetadataProbe::Found { attributes, is_symlink, link_target } => {
            if attributes & FILE_ATTRIBUTE_REPARSE_POINT != 0 {
                PathClass::ReparsePoint {
                    is_symlink,
                    target: if is_symlink {
                        link_target
                    } else {
                        None
                    },
                }
            } else {
                PathClass::LocalFile
            }
        },
        MetadataProbe::NotFound => PathClass::NotFound,
        MetadataProbe::Failed => PathClass::Unknown,
    }
}

} // verus!

verus! {

/// The outcome of `guard_destructive_path` for a path, its class, its
/// normal form and the normal form of the test root (when one is set).
pub open spec fn destructive_verdict(
    path: Seq<char>,
    class: PathClass,
    target: Seq<char>,
    root: Option<Seq<char>>,
) -> Option<(ErrorCode, Seq<char>)> {
    if path.len() == 0 {
        Some((ErrorCode::PathNotFound, "路径不能为空"@))
    } else if class is UncPath {
        Some((ErrorCode::PermissionDenied, "UNC 路径上的破坏性操作需要额外安全审查"@))
    } else if class is ReparsePoint {
        Some(
            (
                ErrorCode::PermissionDenied,
                "破坏性操作默认不穿透重解析点（symlink/junction），需要显式确认"@,
            ),
        )
    } else if root is Some && !is_under(target, root->0) {
        Some(
            (
                ErrorCode::TestRootEscape,
                "破坏性操作目标路径 '"@ + target + "' 不在测试根 '"@ + root->0 + "' 内"@,
            ),
        )
    } else {
        None
    }
}

/// The safety check run before any destructive file operation. It refuses
/// an empty path, network paths, reparse points (which a recursive
/// operation would pass through), and, when a test root is set, any target
/// outside it. `class` is the class of the path's normal form,
/// `normalized_target` the path's normal form, `normalized_root` the normal
/// form of the test root.
pub fn guard_destructive_path(
    path: &str,
    class: &PathClass,
    normalized_target: &str,
    normalized_root: Option<&str>,
) -> (r: Result<(), AppError>)
    ensures
        destructive_verdict(path@, *class, normalized_target@, match normalized_root {
            Some(s) => Some(s@),
            None => None,
        }) matches Some((code, msg)) ==> (r matches Err(e) && is_plain_error(e, code, msg)),
        destructive_verdict(path@, *class, normalized_target@, match normalized_root {
            Some(s) => Some(s@),
            None => None,
        }) is None ==> r is Ok,
        r is Ok ==> path@.len() > 0 && !(*class is UncPath) && !(*class is ReparsePoint) && (
        normalized_root matches Some(root) ==> is_under(normalized_target@, root@)),
{
    if path.is_empty() {
        return Err(AppError::new(ErrorCode::PathNotFound, String::from_str("路径不能为空")));
    }
    match class {
        PathClass::UncPath => {
            return Err(
                AppError::new(
                    ErrorCode::PermissionDenied,
                    String::from_str("UNC 路径上的破坏性操作需要额外安全审查"),
                ),
            );
        },
        PathClass::ReparsePoint { .. } => {
            return Err(
                AppError::new(
                    ErrorCode::PermissionDenied,
                    String::from_str(
                        "破坏性操作默认不穿透重解析点（symlink/junction），需要显式确认",
                    ),
                ),
            );
        },
        _ => {},
    }
    if let Some(root) = normalized_root {
        if !path_is_under(normalized_target, root) {
            let mut msg = String::from_str("破坏性操作目标路径 '");
            msg.append(normalized_target);
            msg.append("' 不在测试根 '");
            msg.append(root);
            msg.append("' 内");
            return Err(AppError::new(ErrorCode::TestRootEscape, msg));
        }
    }
    Ok(())
}

/// The outcome of `guard_test_root_after_reparse_resolution`.
pub open spec fn reparse_verdict(
    resolved: Seq<char>,
    test_root: Seq<char>,
    target: Seq<char>,
    root: Seq<char>,
) -> Option<Seq<char>> {
    if resolved.len() == 0 || test_root.len() == 0 {
        Some("resolved_path 和 test_root 不能为空"@)
    } else if !is_under(target, root) {
        Some("重解析点目标路径 '"@ + target + "' 已越出测试根 '"@ + root + "'"@)
    } else {
        None
    }
}

/// The last check after a reparse point has been resolved: the resolved
/// path must still lie in the test root. `normalized_target` and
/// `normalized_root` are the normal forms of `resolved_path` and
/// `test_root`. Every refusal has code `TestRootEscape`.
pub fn guard_test_root_after_reparse_resolution(
    resolved_path: &str,
    test_root: &str,
    normalized_target: &str,
    normalized_root: &str,
) -> (r: Result<(), AppError>)
    ensures
        reparse_verdict(resolved_path@, test_root@, normalized_target@, normalized_root@) matches Some(
            msg,
        ) ==> (r matches Err(e) && is_plain_error(e, ErrorCode::TestRootEscape, msg)),
        reparse_verdict(resolved_path@, test_root@, normalized_target@, normalized_root@) is None
            ==> r is Ok,
        r is Ok ==> is_under(normalized_target@, normalized_root@),
{
    if resolved_path.is_empty() || test_root.is_empty() {
        return Err(
            AppError::new(
                ErrorCode::TestRootEscape,
                String::from_str("resolved_path 和 test_root 不能为空"),
            ),
        );
    }
    if !path_is_under(normalized_target, normalized_root) {
        let mut msg = String::from_str("重解析点目标路径 '");
        msg.append(normalized_target);
        msg.append("' 已越出测试根 '");
        msg.append(normalized_root);
        msg.append("'");
        return Err(AppError::new(ErrorCode::TestRootEscape, msg));
    }
    Ok(())
}

} // verus!

verus! {

/// `k` is the index of the last `.` of `s` (or -1 without one).
pub proof fn lemma_last_dot_at(s: Seq<char>, k: int)
    requires
        -1 <= k < s.len(),
        k == -1 || s[k] == '.',
        forall|j: int| k < j < s.len() ==> s[j] != '.',
    ensures
        last_dot(s) == k,
{
    lemma_last_dot(s, k);
}

} // verus!

verus! {

/// A directory lies in itself.
pub proof fn law_root_is_under_itself(root: Seq<char>)
    requires
        root.len() > 0,
    ensures
        is_under(root, root),
{
    let rl = lowercase(root);
    if rl.len() > 0 && rl.last() == '\\' {
        assert(rl.take(rl.len() as int) =~= rl);
    }
}

} // verus!
