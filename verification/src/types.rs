use vstd::prelude::*;

verus! {

/// One directory entry as shown in the file list.
#[derive(Clone, Debug)]
pub struct FileEntry {
    pub path: String,
    pub name: String,
    pub size: u64,
    pub modified: i64,
    pub is_hidden: bool,
    pub is_folder: bool,
}

/// Key by which a directory listing is ordered.
#[derive(Clone, Copy, Debug, PartialEq, Eq, Structural)]
pub enum SortKey {
    Name,
    Modified,
    Size,
    FileType,
}

/// Which entries a directory listing keeps.
#[derive(Clone, Copy, Debug, PartialEq, Eq, Structural)]
pub enum FilterKind {
    All,
    Folders,
    Files,
    Images,
    Documents,
    Videos,
}

/// A (possibly paginated) window onto a directory listing.
#[derive(Clone, Debug)]
pub struct DirectoryPage {
    pub path: String,
    pub entries: Vec<FileEntry>,
    pub total_count: usize,
    pub sort_key: SortKey,
    pub sort_ascending: bool,
    pub filter_kind: FilterKind,
    pub show_hidden: bool,
    pub snapshot_version: u64,
    pub offset: usize,
    pub limit: usize,
}

impl DirectoryPage {
    /// A page is paginated unless its limit is the "no limit" value.
    pub fn is_paginated(&self) -> (r: bool)
        ensures
            r == (self.limit != usize::MAX),
    {
        self.limit != usize::MAX
    }
}

/// Life-cycle states of a background task.
#[derive(Clone, Copy, Debug, PartialEq, Eq, Structural)]
pub enum TaskStatus {
    Queued,
    Validating,
    Running,
    WaitingForConflictDecision,
    Cancelling,
    Cancelled,
    Completed,
    Failed,
    PartiallyCompleted,
}

/// A file operation task as reported to the front end.
#[derive(Clone, Debug)]
pub struct FileTask {
    pub id: String,
    pub source: String,
    pub target: Option<String>,
    pub status: TaskStatus,
    pub progress_current: u64,
    pub progress_total: u64,
    pub error_message: Option<String>,
}

/// Persisted user settings.
#[derive(Clone, Debug)]
pub struct Settings {
    pub schema_version: u32,
    pub show_hidden_files: bool,
    pub show_file_extensions: bool,
    pub sort_key: SortKey,
    pub sort_ascending: bool,
}

/// How the file list is laid out.
#[derive(Clone, Copy, Debug, PartialEq, Eq, Structural)]
pub enum ViewMode {
    Icons,
    List,
    Details,
}

/// The answer a user gives when a copy or move meets an existing target.
#[derive(Clone, Copy, Debug, PartialEq, Eq, Structural)]
pub enum ConflictDecision {
    Replace,
    Skip,
    KeepBoth,
    ApplyToAll,
}

/// A mounted drive with its free and total space in bytes.
#[derive(Clone, Debug)]
pub struct DriveInfo {
    pub name: String,
    pub path: String,
    pub available_space: u64,
    pub total_space: u64,
}

/// All drives of the machine.
#[derive(Clone, Debug)]
pub struct DriveList {
    pub drives: Vec<DriveInfo>,
}

/// The well-known folders shown in the side bar.
#[derive(Clone, Debug)]
pub struct SidebarRoots {
    pub desktop: String,
    pub downloads: String,
    pub documents: String,
    pub pictures: String,
    pub videos: String,
    pub music: String,
    pub this_pc: String,
}

} // verus!
