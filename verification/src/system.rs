use vstd::prelude::*;
use crate::error::{is_plain_error, AppError, ErrorCode};
use crate::text::{join2, signed_decimal, signed_decimal_string};
use crate::types::{DriveInfo, SidebarRoots};

verus! {

// ---------------------------------------------------------------------------
// Drives
// ---------------------------------------------------------------------------

/// Drive letters in the order of the bits of the logical-drive mask.
pub open spec fn drive_alphabet() -> Seq<char> {
    "ABCDEFGHIJKLMNOPQRSTUVWXYZ"@
}

/// Bit `i` of the logical-drive mask is set.
pub open spec fn drive_bit(bits: u32, i: int) -> bool {
    bits & (1u32 << (i as u32)) != 0u32
}

/// The letters of the drives among the first `n` bits of `bits`, in order.
pub open spec fn mask_letters(bits: u32, n: int) -> Seq<char>
    decreases n,
{
    if n <= 0 {
        Seq::empty()
    } else if drive_bit(bits, n - 1) {
        mask_letters(bits, n - 1).push(drive_alphabet()[n - 1])
    } else {
        mask_letters(bits, n - 1)
    }
}

/// The letters of the drives present in the logical-drive mask `bits`
/// (bit 0 is `A`, bit 25 is `Z`); an empty mask means the drives could not
/// be read.
pub fn drive_letters(bits: u32) -> (r: Result<Vec<char>, AppError>)
    ensures
        bits == 0 ==> (r matches Err(e) && is_plain_error(e, ErrorCode::InternalError, "无法获取驱动器列表"@)),
        bits != 0 ==> (r matches Ok(v) && v@ == mask_letters(bits, 26)),
{
    if bits == 0 {
        return Err(AppError::new(ErrorCode::InternalError, String::from_str("无法获取驱动器列表")));
    }
    let alphabet = "ABCDEFGHIJKLMNOPQRSTUVWXYZ";
    proof {
        reveal_strlit("ABCDEFGHIJKLMNOPQRSTUVWXYZ");
    }
    assert(alphabet@.len() == 26);
    let mut out: Vec<char> = Vec::new();
    let mut i: u32 = 0;
    while i < 26
        invariant
            i <= 26,
            alphabet@ == drive_alphabet(),
            alphabet@.len() == 26,
            out@ == mask_letters(bits, i as int),
        decreases 26 - i,
    {
        if bits & (1u32 << i) != 0 {
            out.push(alphabet.get_char(i as usize));
        }
        i = i + 1;
    }
    Ok(out)
}

/// The entry of drive `letter`: named `X: 本地磁盘`, rooted at `X:\`.
pub fn drive_info(letter: char, available_space: u64, total_space: u64) -> (d: DriveInfo)
    ensures
        d.name@ == seq![letter] + ": 本地磁盘"@,
        d.path@ == seq![letter, ':', '\\'],
        d.available_space == available_space,
        d.total_space == total_space,
{
    let mut name = String::new();
    crate::text::push_char(&mut name, letter);
    name.append(": 本地磁盘");
    DriveInfo {
        name,
        path: crate::path_safety::drive_root(letter),
        available_space,
        total_space,
    }
}

// ---------------------------------------------------------------------------
// Side bar
// ---------------------------------------------------------------------------

/// `name` is a relative path without a root or a drive: not empty, not
/// beginning with a separator, and without `:` as its second character.
pub open spec fn is_plain_relative(name: Seq<char>) -> bool {
    name.len() > 0 && name[0] != '\\' && name[0] != '/' && !(name.len() >= 2 && name[1] == ':')
}

/// `base` begins with the verbatim prefix `\\?\`.
pub open spec fn is_verbatim(base: Seq<char>) -> bool {
    base.len() >= 4 && base.take(4) == seq!['\\', '\\', '?', '\\']
}

/// `r` is `name` adjoined to `base`: right after it, or after one
/// separator.
pub open spec fn adjoined(r: Seq<char>, base: Seq<char>, name: Seq<char>) -> bool {
    r == base + name || r == base + seq!['\\'] + name || r == base + seq!['/'] + name
}

/// `Path::join` of std, from `&str` to `String`: `name` adjoined to `base`
/// by the path rules of the platform the library is built for. Those rules
/// differ between platforms (which separator goes between, whether a drive
/// designator such as `C:` takes one, what a verbatim `\\?\` base turns
/// into), so the result is not named. What is stated is what the
/// documentation gives on every platform: a plain relative path extends a base
/// without a verbatim prefix, after at most one separator.
#[verifier::external_body]
fn path_join(base: &str, name: &str) -> (r: String)
    ensures
        is_plain_relative(name@) && !is_verbatim(base@) ==> adjoined(r@, base@, name@),
{
    std::path::Path::new(base).join(name).to_string_lossy().into_owned()
}

/// `r` is what the side bar shows for a folder: where the system says it
/// is, or else `name` adjoined to the user profile (to `C:\` when the
/// profile is unknown), as far as the platform's path rules are stated.
pub open spec fn is_folder_path(r: Seq<char>, known: Option<Seq<char>>, profile: Option<Seq<char>>, name: Seq<char>) -> bool {
    match known {
        Some(k) => r == k,
        None => {
            let base = match profile {
                Some(p) => p,
                None => "C:\\"@,
            };
            !is_verbatim(base) ==> adjoined(r, base, name)
        },
    }
}

fn folder_path(known: Option<String>, profile: &Option<String>, name: &str) -> (r: String)
    requires
        is_plain_relative(name@),
    ensures
        is_folder_path(
            r@,
            match known {
                Some(k) => Some(k@),
                None => None,
            },
            match *profile {
                Some(p) => Some(p@),
                None => None,
            },
            name@,
        ),
{
    proof {
        reveal_strlit("C:\\");
    }
    match known {
        Some(k) => k,
        None => match profile {
            Some(p) => path_join(p.as_str(), name),
            None => path_join("C:\\", name),
        },
    }
}

/// The view of an optional string.
pub open spec fn opt_view(o: Option<String>) -> Option<Seq<char>> {
    match o {
        Some(s) => Some(s@),
        None => None,
    }
}

/// The side-bar folders from what the system reported of each (`None` when
/// it could not say) and the user profile directory; "此电脑" stands for
/// the computer.
pub fn sidebar_roots(
    desktop: Option<String>,
    downloads: Option<String>,
    documents: Option<String>,
    pictures: Option<String>,
    videos: Option<String>,
    music: Option<String>,
    profile: Option<String>,
) -> (r: SidebarRoots)
    ensures
        is_folder_path(r.desktop@, opt_view(desktop), opt_view(profile), "Desktop"@),
        is_folder_path(r.downloads@, opt_view(downloads), opt_view(profile), "Downloads"@),
        is_folder_path(r.documents@, opt_view(documents), opt_view(profile), "Documents"@),
        is_folder_path(r.pictures@, opt_view(pictures), opt_view(profile), "Pictures"@),
        is_folder_path(r.videos@, opt_view(videos), opt_view(profile), "Videos"@),
        is_folder_path(r.music@, opt_view(music), opt_view(profile), "Music"@),
        r.this_pc@ == "此电脑"@,
{
    proof {
        reveal_strlit("Desktop");
        reveal_strlit("Downloads");
        reveal_strlit("Documents");
        reveal_strlit("Pictures");
        reveal_strlit("Videos");
        reveal_strlit("Music");
    }
    SidebarRoots {
        desktop: folder_path(desktop, &profile, "Desktop"),
        downloads: folder_path(downloads, &profile, "Downloads"),
        documents: folder_path(documents, &profile, "Documents"),
        pictures: folder_path(pictures, &profile, "Pictures"),
        videos: folder_path(videos, &profile, "Videos"),
        music: folder_path(music, &profile, "Music"),
        this_pc: String::from_str("此电脑"),
    }
}

// ---------------------------------------------------------------------------
// Shell integration errors
// ---------------------------------------------------------------------------

/// The error for a path that does not exist.
pub fn missing_path_error(path: &str) -> (e: AppError)
    ensures
        is_plain_error(e, ErrorCode::PathNotFound, "路径不存在: "@ + path@),
{
    AppError::new(ErrorCode::PathNotFound, join2("路径不存在: ", path))
}

/// The error for a recycle-bin operation that returned `code`.
pub fn recycle_bin_error(code: i32) -> (e: AppError)
    ensures
        is_plain_error(
            e,
            ErrorCode::RecycleBinUnavailable,
            "回收站操作失败 (Win32 error "@ + signed_decimal(code as int) + ")"@,
        ),
{
    let digits = signed_decimal_string(code as i64);
    let mut msg = String::from_str("回收站操作失败 (Win32 error ");
    msg.append(digits.as_str());
    msg.append(")");
    AppError::new(ErrorCode::RecycleBinUnavailable, msg)
}

/// A shell execution failed when it returned 32 or less.
pub fn shell_execute_failed(result: isize) -> (r: bool)
    ensures
        r == (result <= 32),
{
    result <= 32
}

/// The error for opening with the default application, which returned
/// `result`.
pub fn default_app_error(result: isize) -> (e: AppError)
    ensures
        is_plain_error(
            e,
            ErrorCode::DefaultAppOpenFailed,
            "默认应用打开失败 (ShellExecute returned "@ + signed_decimal(result as int) + ")"@,
        ),
{
    let digits = signed_decimal_string(result as i64);
    let mut msg = String::from_str("默认应用打开失败 (ShellExecute returned ");
    msg.append(digits.as_str());
    msg.append(")");
    AppError::new(ErrorCode::DefaultAppOpenFailed, msg)
}

/// The error for a terminal that could not be started.
pub fn terminal_error() -> (e: AppError)
    ensures
        is_plain_error(e, ErrorCode::TerminalUnavailable, "无法打开终端窗口"@),
{
    AppError::new(ErrorCode::TerminalUnavailable, String::from_str("无法打开终端窗口"))
}

/// The error for a properties window that could not be opened; the shell
/// returned `result`.
pub fn properties_error(result: isize) -> (e: AppError)
    ensures
        is_plain_error(
            e,
            ErrorCode::PropertiesOpenFailed,
            "属性窗口打开失败 (ShellExecute returned "@ + signed_decimal(result as int) + ")"@,
        ),
{
    let digits = signed_decimal_string(result as i64);
    let mut msg = String::from_str("属性窗口打开失败 (ShellExecute returned ");
    msg.append(digits.as_str());
    msg.append(")");
    AppError::new(ErrorCode::PropertiesOpenFailed, msg)
}

} // verus!
