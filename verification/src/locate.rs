//! The log locator's decision logic: which directory entry is the log file
//! to tail. Reading the directory itself happens outside; this module picks
//! from plain values.
use vstd::prelude::*;

verus! {

/// What the locator needs to know about one directory entry.
#[derive(Clone, Debug, PartialEq, Eq)]
pub struct DirEntryInfo {
    /// The entry's path.
    pub path: String,
    /// Modification time, as a count of time units since some fixed origin.
    pub modified: u64,
    /// Whether the entry is a regular file.
    pub is_file: bool,
}

/// Index of the entry to tail: the regular file with the greatest
/// modification time, the last such entry when several are tied. `None`
/// exactly when no entry is a regular file.
pub fn pick_latest(entries: &Vec<DirEntryInfo>) -> (r: Option<usize>)
    ensures
        match r {
            Some(i) => i < entries@.len() && entries@[i as int].is_file && (forall|j: int|
                0 <= j < entries@.len() && entries@[j].is_file ==> entries@[j].modified
                    <= entries@[i as int].modified) && (forall|j: int|
                i < j < entries@.len() && entries@[j].is_file ==> entries@[j].modified
                    < entries@[i as int].modified),
            None => forall|j: int| 0 <= j < entries@.len() ==> !entries@[j].is_file,
        },
{
    let mut best: Option<usize> = None;
    let mut i: usize = 0;
    while i < entries.len()
        invariant
            i <= entries.len(),
            match best {
                Some(b) => b < i && entries@[b as int].is_file && (forall|j: int|
                    0 <= j < i && entries@[j].is_file ==> entries@[j].modified
                        <= entries@[b as int].modified) && (forall|j: int|
                    b < j < i && entries@[j].is_file ==> entries@[j].modified
                        < entries@[b as int].modified),
                None => forall|j: int| 0 <= j < i ==> !entries@[j].is_file,
            },
        decreases entries.len() - i,
    {
        if entries[i].is_file {
            match best {
                Some(b) => {
                    if entries[i].modified >= entries[b].modified {
                        best = Some(i);
                    }
                },
                None => {
                    best = Some(i);
                },
            }
        }
        i = i + 1;
    }
    best
}

/// The fixed logs directory underneath the environment-provided base path.
pub fn logs_folder_path(local_app_data: &str) -> (r: String)
    ensures
        r@ == local_app_data@ + "/FiveM/FiveM.app/logs"@,
{
    let mut r = String::from_str(local_app_data);
    r.append("/FiveM/FiveM.app/logs");
    r
}

} // verus!
