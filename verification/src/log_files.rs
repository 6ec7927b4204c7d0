//! Choice of the log file to tail. The directory may hold several
//! rotated logs; the tailer follows the newest one that matches the
//! expected naming pattern, and restarts from offset zero when it
//! switches files.

use vstd::prelude::*;

use crate::strutil::{ends_with_seq, starts_with_seq, str_ends_with, str_eq, str_starts_with};

verus! {

/// What the directory scan hands the selection logic about one file:
/// its name and its creation time (falling back to the modification
/// time), when the file system offers one.
#[derive(Debug, Clone, PartialEq, Eq)]
pub struct LogFileMeta {
    pub name: String,
    pub time: Option<u64>,
}

/// Whether a file name matches the rotated-log naming pattern.
pub open spec fn log_name(name: Seq<char>) -> bool {
    starts_with_seq(name, "output_log_"@) && ends_with_seq(name, ".txt"@)
}

/// Whether a file name matches the rotated-log naming pattern.
pub fn is_log_name(name: &str) -> (r: bool)
    ensures
        r == log_name(name@),
{
    str_starts_with(name, "output_log_") && str_ends_with(name, ".txt")
}

/// The (name, time) pairs a scan found, in scan order.
pub open spec fn files_view(files: Seq<LogFileMeta>) -> Seq<(Seq<char>, Option<u64>)> {
    Seq::new(files.len(), |i: int| (files[i].name@, files[i].time))
}

/// The candidate after considering the files from `i` on, starting from
/// `best` (an index into `files` and that file's time). A timed file
/// beats an untimed or absent candidate and any strictly older one; an
/// untimed file counts only when nothing was picked yet.
pub open spec fn select_from(
    files: Seq<(Seq<char>, Option<u64>)>,
    i: int,
    best: Option<(int, Option<u64>)>,
) -> Option<(int, Option<u64>)>
    decreases files.len() - i,
{
    if i < 0 || i >= files.len() {
        best
    } else {
        let f = files[i];
        let next = if !log_name(f.0) {
            best
        } else {
            match f.1 {
                Some(t) => match best {
                    Some((_, Some(bt))) => if t > bt {
                        Some((i, Some(t)))
                    } else {
                        best
                    },
                    _ => Some((i, Some(t))),
                },
                None => match best {
                    Some(_) => best,
                    None => Some((i, None)),
                },
            }
        };
        select_from(files, i + 1, next)
    }
}

/// The newest matching file of a scan, if any.
pub open spec fn select_latest(files: Seq<(Seq<char>, Option<u64>)>) -> Option<(int, Option<u64>)> {
    select_from(files, 0, None)
}

/// Which file the tailer is following and how far it has read it.
pub struct TailerState {
    /// The name of the file being followed, once one was found.
    pub current: Option<String>,
    /// How many bytes of that file were already consumed.
    pub offset: u64,
}

impl TailerState {
    /// A tailer that has not found a file yet.
    pub fn new() -> (r: TailerState)
        ensures
            r.current is None,
            r.offset == 0,
    {
        TailerState { current: None, offset: 0 }
    }

    /// Consider the files a directory scan found. When the newest
    /// matching file differs from the one being followed, switch to it
    /// and reset the read offset to zero; otherwise change nothing.
    /// Returns whether a switch happened.
    pub fn on_scan(&mut self, files: &Vec<LogFileMeta>) -> (rotated: bool)
        ensures
            match select_latest(files_view(files@)) {
                Some(sel) => {
                    let name = files_view(files@)[sel.0].0;
                    if old(self).current matches Some(c) && c@ == name {
                        &&& *final(self) == *old(self)
                        &&& !rotated
                    } else {
                        &&& final(self).current matches Some(c) && c@ == name
                        &&& final(self).offset == 0
                        &&& rotated
                    }
                },
                None => *final(self) == *old(self) && !rotated,
            },
    {
        let n = files.len();
        let mut best: Option<usize> = None;
        let mut best_time: Option<u64> = None;
        let ghost fv = files_view(files@);
        let mut i: usize = 0;
        while i < n
            invariant
                n == files@.len(),
                fv == files_view(files@),
                fv.len() == n,
                0 <= i <= n,
                (match best {
                    Some(b) => b < i && select_from(fv, i as int, Some((b as int, best_time)))
                        == select_latest(fv),
                    None => best_time is None && select_from(fv, i as int, None)
                        == select_latest(fv),
                }),
            decreases n - i,
        {
            proof {
                assert(fv[i as int] == (files@[i as int].name@, files@[i as int].time));
            }
            if is_log_name(files[i].name.as_str()) {
                match files[i].time {
                    Some(t) => {
                        let take = match best_time {
                            Some(cur) => t > cur,
                            None => true,
                        };
                        if take {
                            best = Some(i);
                            best_time = Some(t);
                        }
                    },
                    None => {
                        if best.is_none() {
                            best = Some(i);
                        }
                    },
                }
            }
            i += 1;
        }
        match best {
            None => false,
            Some(j) => {
                let name = &files[j].name;
                let same = match &self.current {
                    Some(c) => str_eq(c.as_str(), name.as_str()),
                    None => false,
                };
                if same {
                    false
                } else {
                    self.current = Some(name.clone());
                    self.offset = 0;
                    true
                }
            },
        }
    }

    /// Record that the file was read through to `file_len` bytes; the
    /// next read resumes there.
    pub fn note_read(&mut self, file_len: u64)
        ensures
            final(self).offset == file_len,
            final(self).current == old(self).current,
    {
        self.offset = file_len;
    }
}

} // verus!
