use vstd::prelude::*;
use crate::clock::unix_millis;
use crate::schema::str_eq;

verus! {

/// Durable progress of one input.
#[derive(Debug, Clone)]
pub struct FileState {
    pub path: String,
    pub format: String,
    pub processed: bool,
    /// Byte offset of the last record boundary written (delimited text).
    pub last_offset: Option<u64>,
    /// Index of the last row group written (columnar input).
    pub last_row_group: Option<usize>,
    pub bytes_processed: u64,
    pub rows_processed: u64,
    /// Modification time of the input, in milliseconds since the Unix epoch.
    pub last_modified: u64,
    /// Size of the input in bytes when it was registered.
    pub size: u64,
}

/// Durable progress of a run.
#[derive(Debug, Clone)]
pub struct ProcessingState {
    pub version: String,
    pub created_at: u64,
    pub updated_at: u64,
    pub files: Vec<FileState>,
    pub output_path: String,
    pub output_format: String,
    pub total_files: usize,
    pub processed_files: usize,
    pub total_bytes: u64,
    pub processed_bytes: u64,
}

/// Number of inputs marked processed.
pub open spec fn count_processed(s: Seq<FileState>) -> nat
    decreases s.len(),
{
    if s.len() == 0 {
        0
    } else {
        count_processed(s.drop_last()) + if s.last().processed {
            1nat
        } else {
            0nat
        }
    }
}

pub open spec fn paths_unique(s: Seq<FileState>) -> bool {
    forall|i: int, j: int| 0 <= i < j < s.len() ==> s[i].path@ != s[j].path@
}

/// Position of the input registered under `p`, or -1.
pub open spec fn path_index(s: Seq<FileState>, p: Seq<char>) -> int {
    if exists|i: int| 0 <= i < s.len() && s[i].path@ == p {
        choose|i: int| 0 <= i < s.len() && s[i].path@ == p
    } else {
        -1
    }
}

proof fn lemma_count_le_len(s: Seq<FileState>)
    ensures
        count_processed(s) <= s.len(),
    decreases s.len(),
{
    if s.len() > 0 {
        lemma_count_le_len(s.drop_last());
    }
}

proof fn lemma_count_update(s: Seq<FileState>, i: int, f: FileState)
    requires
        0 <= i < s.len(),
    ensures
        count_processed(s.update(i, f)) + (if s[i].processed {
            1nat
        } else {
            0nat
        }) == count_processed(s) + (if f.processed {
            1nat
        } else {
            0nat
        }),
    decreases s.len(),
{
    let u = s.update(i, f);
    if i == s.len() - 1 {
        assert(u.drop_last() =~= s.drop_last());
    } else {
        assert(u.drop_last() =~= s.drop_last().update(i, f));
        lemma_count_update(s.drop_last(), i, f);
    }
}

proof fn lemma_count_push(s: Seq<FileState>, f: FileState)
    ensures
        count_processed(s.push(f)) == count_processed(s) + (if f.processed {
            1nat
        } else {
            0nat
        }),
{
    assert(s.push(f).drop_last() =~= s);
}

proof fn lemma_path_index_found(s: Seq<FileState>, p: Seq<char>, i: int)
    requires
        paths_unique(s),
        0 <= i < s.len(),
        s[i].path@ == p,
    ensures
        path_index(s, p) == i,
{
    let j = path_index(s, p);
    if j < i {
        assert(s[j].path@ != s[i].path@);
    } else if i < j {
        assert(s[i].path@ != s[j].path@);
    }
}

fn find_file(files: &Vec<FileState>, path: &str) -> (r: Option<usize>)
    requires
        paths_unique(files@),
    ensures
        match r {
            Some(i) => i < files@.len() && path_index(files@, path@) == i,
            None => path_index(files@, path@) == -1,
        },
{
    let mut i: usize = 0;
    while i < files.len()
        invariant
            i <= files@.len(),
            paths_unique(files@),
            forall|k: int| 0 <= k < i ==> files@[k].path@ != path@,
        decreases files@.len() - i,
    {
        if str_eq(files[i].path.as_str(), path) {
            proof {
                lemma_path_index_found(files@, path@, i as int);
            }
            return Some(i);
        }
        i += 1;
    }
    None
}

/// What a resumed run does with one discovered input.
#[derive(Debug, Clone, Copy, PartialEq, Eq, Structural)]
pub enum ResumeAction {
    /// Not in the state: process it from the start.
    Process,
    /// Unchanged and already processed: skip it.
    Skip,
    /// Unchanged and partly processed: go on from the stored position.
    Resume { offset: u64, row_group: Option<usize> },
    /// Changed since it was recorded: process it again from the start, and
    /// warn that its state was invalidated.
    Restart,
}

impl FileState {
    /// A fresh, unprocessed record of an input.
    pub fn new(path: String, format: String, size: u64, last_modified: u64) -> (r: Self)
        ensures
            r.path == path,
            r.format == format,
            r.size == size,
            r.last_modified == last_modified,
            !r.processed,
            r.last_offset is None,
            r.last_row_group is None,
            r.bytes_processed == 0,
            r.rows_processed == 0,
    {
        FileState {
            path,
            format,
            processed: false,
            last_offset: None,
            last_row_group: None,
            bytes_processed: 0,
            rows_processed: 0,
            last_modified,
            size,
        }
    }
}

/// The decision for an input seen with `size` and `mtime` against its stored
/// record.
pub open spec fn resume_spec(f: Option<FileState>, size: u64, mtime: u64) -> ResumeAction {
    match f {
        None => ResumeAction::Process,
        Some(f) => if f.size != size || f.last_modified != mtime {
            ResumeAction::Restart
        } else if f.processed {
            ResumeAction::Skip
        } else if f.last_offset is None && f.last_row_group is None {
            ResumeAction::Process
        } else {
            ResumeAction::Resume {
                offset: match f.last_offset {
                    Some(o) => o,
                    None => 0,
                },
                row_group: f.last_row_group,
            }
        },
    }
}

impl ProcessingState {
    /// The stored record of the input at `p`, if any.
    pub open spec fn lookup(&self, p: Seq<char>) -> Option<FileState> {
        let i = path_index(self.files@, p);
        if i >= 0 {
            Some(self.files@[i])
        } else {
            None
        }
    }

    /// Paths are unique, and the file counters agree with the records.
    pub open spec fn wf(&self) -> bool {
        &&& paths_unique(self.files@)
        &&& self.total_files == self.files@.len()
        &&& self.processed_files == count_processed(self.files@)
    }

    /// An empty state for a run writing `output_path` in `output_format`.
    pub fn new(output_path: String, output_format: String) -> (r: Self)
        ensures
            r.wf(),
            r.files@.len() == 0,
            r.output_path == output_path,
            r.output_format == output_format,
            r.version@ == "0.1.0"@,
            r.total_files == 0,
            r.processed_files == 0,
            r.total_bytes == 0,
            r.processed_bytes == 0,
    {
        let now = unix_millis();
        ProcessingState {
            version: String::from_str("0.1.0"),
            created_at: now,
            updated_at: now,
            files: Vec::new(),
            output_path,
            output_format,
            total_files: 0,
            processed_files: 0,
            total_bytes: 0,
            processed_bytes: 0,
        }
    }

    /// Registers an input observed with modification time `mtime`, with a
    /// fresh record: unprocessed, no position, zero counts. A path already
    /// registered has its record replaced by the fresh one; its processed
    /// mark and bytes leave the counters, and its old size leaves the byte
    /// total.
    pub fn add_file_observed(&mut self, path: String, format: String, size: u64, mtime: u64)
        requires
            old(self).wf(),
            old(self).total_bytes + size <= u64::MAX,
        ensures
            final(self).wf(),
            final(self).output_path == old(self).output_path,
            ({
                let i = path_index(old(self).files@, path@);
                let fresh = FileState::new_spec(path, format, size, mtime);
                if i >= 0 {
                    let prev = old(self).files@[i];
                    &&& final(self).files@ == old(self).files@.update(i, fresh)
                    &&& reregistered(*old(self), *final(self), prev, size)
                } else {
                    &&& final(self).files@ == old(self).files@.push(fresh)
                    &&& final(self).total_bytes == old(self).total_bytes + size
                    &&& final(self).processed_files == old(self).processed_files
                    &&& final(self).processed_bytes == old(self).processed_bytes
                }
            }),
    {
        match find_file(&self.files, path.as_str()) {
            Some(i) => {
                let ghost before = self.files@;
                let was = self.files[i].processed;
                let prev_bytes = self.files[i].bytes_processed;
                let prev_size = self.files[i].size;
                let f = FileState::new(path, format, size, mtime);
                proof {
                    lemma_count_update(before, i as int, f);
                }
                self.files.set(i, f);
                if was {
                    self.processed_files = self.processed_files - 1;
                    self.processed_bytes = if self.processed_bytes >= prev_bytes {
                        self.processed_bytes - prev_bytes
                    } else {
                        0
                    };
                }
                let base = if self.total_bytes >= prev_size {
                    self.total_bytes - prev_size
                } else {
                    0
                };
                self.total_bytes = base + size;
            },
            None => {
                let ghost before = self.files@;
                let f = FileState::new(path, format, size, mtime);
                proof {
                    lemma_count_push(before, f);
                }
                self.files.push(f);
                self.total_files = self.files.len();
                self.total_bytes = self.total_bytes + size;
            },
        }
    }

    /// Registers an input, stamped with the current time; as
    /// `add_file_observed` otherwise.
    pub fn add_file(&mut self, path: String, format: String, size: u64)
        requires
            old(self).wf(),
            old(self).total_bytes + size <= u64::MAX,
        ensures
            final(self).wf(),
            final(self).output_path == old(self).output_path,
            ({
                let i = path_index(old(self).files@, path@);
                if i >= 0 {
                    let prev = old(self).files@[i];
                    &&& final(self).files@ == old(self).files@.update(i, final(self).files@[i])
                    &&& is_fresh(final(self).files@[i], path, format, size)
                    &&& reregistered(*old(self), *final(self), prev, size)
                } else {
                    &&& final(self).files@.len() == old(self).files@.len() + 1
                    &&& final(self).files@.drop_last() == old(self).files@
                    &&& is_fresh(final(self).files@.last(), path, format, size)
                    &&& final(self).total_bytes == old(self).total_bytes + size
                    &&& final(self).processed_files == old(self).processed_files
                    &&& final(self).processed_bytes == old(self).processed_bytes
                }
            }),
    {
        let now = unix_millis();
        let ghost p = path;
        let ghost i = path_index(self.files@, path@);
        self.add_file_observed(path, format, size, now);
        proof {
            if i < 0 {
                assert(self.files@.drop_last() =~= old(self).files@);
            } else {
                assert(self.files@ =~= old(self).files@.update(i, self.files@[i]));
            }
        }
    }

    /// Marks an input done with its byte and row counts. A registered input
    /// takes the given counts, whether or not it was marked before; the file
    /// counter rises on the first mark only, and the processed bytes follow
    /// the input's new count. An input not registered changes nothing.
    pub fn mark_file_processed(&mut self, path: &str, bytes_processed: u64, rows_processed: u64)
        requires
            old(self).wf(),
            old(self).processed_bytes + bytes_processed <= u64::MAX,
        ensures
            final(self).wf(),
            final(self).output_path == old(self).output_path,
            final(self).total_files == old(self).total_files,
            final(self).total_bytes == old(self).total_bytes,
            ({
                let i = path_index(old(self).files@, path@);
                if i >= 0 {
                    let prev = old(self).files@[i];
                    &&& final(self).files@ == old(self).files@.update(
                        i,
                        (FileState { processed: true, bytes_processed, rows_processed, ..prev }),
                    )
                    &&& final(self).processed_files == old(self).processed_files + if prev.processed {
                        0int
                    } else {
                        1int
                    }
                    &&& final(self).processed_bytes == if prev.processed {
                        sat_sub(old(self).processed_bytes, prev.bytes_processed) + bytes_processed
                    } else {
                        old(self).processed_bytes + bytes_processed
                    }
                } else {
                    &&& final(self).files@ == old(self).files@
                    &&& final(self).processed_files == old(self).processed_files
                    &&& final(self).processed_bytes == old(self).processed_bytes
                }
            }),
    {
        match find_file(&self.files, path) {
            Some(i) => {
                let was = self.files[i].processed;
                let prev_bytes = self.files[i].bytes_processed;
                let ghost before = self.files@;
                self.files[i].processed = true;
                self.files[i].bytes_processed = bytes_processed;
                self.files[i].rows_processed = rows_processed;
                proof {
                    lemma_count_update(before, i as int, self.files@[i as int]);
                    lemma_count_le_len(self.files@);
                    assert(self.files@ =~= before.update(i as int, self.files@[i as int]));
                }
                if was {
                    let base = if self.processed_bytes >= prev_bytes {
                        self.processed_bytes - prev_bytes
                    } else {
                        0
                    };
                    self.processed_bytes = base + bytes_processed;
                } else {
                    self.processed_files = self.processed_files + 1;
                    self.processed_bytes = self.processed_bytes + bytes_processed;
                }
            },
            None => {},
        }
        self.updated_at = unix_millis();
    }
}

/// `a - b`, or 0 when `b` is larger.
pub open spec fn sat_sub(a: u64, b: u64) -> int {
    if a >= b {
        a - b
    } else {
        0
    }
}

impl FileState {
    pub open spec fn new_spec(path: String, format: String, size: u64, last_modified: u64) -> Self {
        FileState {
            path,
            format,
            processed: false,
            last_offset: None,
            last_row_group: None,
            bytes_processed: 0,
            rows_processed: 0,
            last_modified,
            size,
        }
    }
}

impl ProcessingState {
    /// Records that an input has been written up to byte `offset` (and row
    /// group `row_group`, for columnar input). An input not registered leaves
    /// the records as they were.
    pub fn update_file_progress(&mut self, path: &str, offset: u64, row_group: Option<usize>)
        requires
            old(self).wf(),
        ensures
            final(self).wf(),
            final(self).output_path == old(self).output_path,
            final(self).total_files == old(self).total_files,
            final(self).total_bytes == old(self).total_bytes,
            final(self).processed_files == old(self).processed_files,
            final(self).processed_bytes == old(self).processed_bytes,
            ({
                let i = path_index(old(self).files@, path@);
                if i >= 0 {
                    final(self).files@ == old(self).files@.update(
                        i,
                        FileState {
                            last_offset: Some(offset),
                            last_row_group: row_group,
                            bytes_processed: offset,
                            ..old(self).files@[i]
                        },
                    )
                } else {
                    final(self).files@ == old(self).files@
                }
            }),
    {
        match find_file(&self.files, path) {
            Some(i) => {
                let ghost before = self.files@;
                self.files[i].last_offset = Some(offset);
                self.files[i].last_row_group = row_group;
                self.files[i].bytes_processed = offset;
                proof {
                    lemma_count_update(before, i as int, self.files@[i as int]);
                    assert(self.files@ =~= before.update(i as int, self.files@[i as int]));
                }
            },
            None => {},
        }
        self.updated_at = unix_millis();
    }

    /// Whether the input at `path` is registered and marked processed.
    pub fn is_file_processed(&self, path: &str) -> (r: bool)
        requires
            self.wf(),
        ensures
            r == (self.lookup(path@) is Some && self.lookup(path@)->Some_0.processed),
    {
        match find_file(&self.files, path) {
            Some(i) => self.files[i].processed,
            None => false,
        }
    }

    /// The record of the input at `path`.
    pub fn get_file_state(&self, path: &str) -> (r: Option<&FileState>)
        requires
            self.wf(),
        ensures
            match r {
                Some(f) => self.lookup(path@) == Some(*f),
                None => self.lookup(path@) is None,
            },
    {
        match find_file(&self.files, path) {
            Some(i) => Some(&self.files[i]),
            None => None,
        }
    }

    /// Where the input at `path` continues: its stored byte offset (0 when
    /// none is stored) and row group.
    pub fn get_resume_point(&self, path: &str) -> (r: Option<(u64, Option<usize>)>)
        requires
            self.wf(),
        ensures
            match self.lookup(path@) {
                Some(f) => r == Some(
                    (
                        match f.last_offset {
                            Some(o) => o,
                            None => 0,
                        },
                        f.last_row_group,
                    ),
                ),
                None => r is None,
            },
    {
        match find_file(&self.files, path) {
            Some(i) => {
                let offset = match self.files[i].last_offset {
                    Some(o) => o,
                    None => 0,
                };
                Some((offset, self.files[i].last_row_group))
            },
            None => None,
        }
    }

    /// Every registered input is processed.
    pub fn is_complete(&self) -> (r: bool)
        ensures
            r == (self.processed_files == self.total_files),
    {
        self.processed_files == self.total_files
    }

    /// Whole percent of the registered bytes that are processed, rounded
    /// down (and capped at the largest `u64`); 0 when no bytes are registered.
    pub fn progress_percent(&self) -> (r: u64)
        ensures
            self.total_bytes == 0 ==> r == 0,
            self.total_bytes > 0 ==> r as int == vstd::math::min(
                (self.processed_bytes as int * 100) / self.total_bytes as int,
                u64::MAX as int,
            ),
    {
        if self.total_bytes == 0 {
            0
        } else {
            let num = (self.processed_bytes as u128) * 100;
            let q = num / (self.total_bytes as u128);
            if q > u64::MAX as u128 {
                u64::MAX
            } else {
                q as u64
            }
        }
    }

    /// What to do with an input discovered with `size` bytes and
    /// modification time `mtime` when this state is resumed.
    pub fn resume_action(&self, path: &str, size: u64, mtime: u64) -> (r: ResumeAction)
        requires
            self.wf(),
        ensures
            r == resume_spec(self.lookup(path@), size, mtime),
    {
        match find_file(&self.files, path) {
            None => ResumeAction::Process,
            Some(i) => {
                let f = &self.files[i];
                if f.size != size || f.last_modified != mtime {
                    ResumeAction::Restart
                } else if f.processed {
                    ResumeAction::Skip
                } else if f.last_offset.is_none() && f.last_row_group.is_none() {
                    ResumeAction::Process
                } else {
                    let offset = match f.last_offset {
                        Some(o) => o,
                        None => 0,
                    };
                    ResumeAction::Resume { offset, row_group: f.last_row_group }
                }
            },
        }
    }
}

/// Holds the run state and where it is persisted.
pub struct StateManager {
    pub state_path: Option<String>,
    pub state: Option<ProcessingState>,
}

impl StateManager {
    /// A manager persisting to `state_path`, if given, with no state yet.
    pub fn new(state_path: Option<String>) -> (r: Self)
        ensures
            r.state_path == state_path,
            r.state is None,
    {
        StateManager { state_path, state: None }
    }

    /// Starts a fresh state for a run writing `output_path` in
    /// `output_format`; the manager holds it, and the caller gets a copy.
    pub fn create_state(&mut self, output_path: String, output_format: String) -> (r: ProcessingState)
        ensures
            r.wf(),
            r.files@.len() == 0,
            r.output_path@ == output_path@,
            r.output_format@ == output_format@,
            r.total_files == 0 && r.processed_files == 0,
            r.total_bytes == 0 && r.processed_bytes == 0,
            final(self).state_path == old(self).state_path,
            final(self).state is Some,
            final(self).state->Some_0.wf(),
            final(self).state->Some_0.files@.len() == 0,
            final(self).state->Some_0.output_path == output_path,
            final(self).state->Some_0.output_format == output_format,
    {
        let copy = ProcessingState::new(output_path.clone(), output_format.clone());
        let state = ProcessingState::new(output_path, output_format);
        self.state = Some(state);
        copy
    }

    /// Installs a state read back from storage.
    pub fn set_state(&mut self, state: ProcessingState)
        ensures
            final(self).state_path == old(self).state_path,
            final(self).state == Some(state),
    {
        self.state = Some(state);
    }

    /// The state held, if any.
    pub fn get_state(&self) -> (r: Option<&ProcessingState>)
        ensures
            match self.state {
                Some(s) => r == Some(&s),
                None => r is None,
            },
    {
        self.state.as_ref()
    }
}

impl ProcessingState {
    /// Rebuilds a state from stored records. The file counters are counted
    /// from the records; two records under one path make the state invalid.
    pub fn restore(
        version: String,
        created_at: u64,
        updated_at: u64,
        output_path: String,
        output_format: String,
        files: Vec<FileState>,
        total_bytes: u64,
        processed_bytes: u64,
    ) -> (r: Result<Self, crate::error::MawError>)
        ensures
            r is Ok <==> paths_unique(files@),
            r is Err ==> r->Err_0 is State,
            r is Ok ==> ({
                let s = r->Ok_0;
                &&& s.wf()
                &&& s.files@ == files@
                &&& s.output_path == output_path
                &&& s.output_format == output_format
                &&& s.total_bytes == total_bytes
                &&& s.processed_bytes == processed_bytes
            }),
    {
        let mut count: usize = 0;
        let mut i: usize = 0;
        assert(files@.subrange(0, 0) =~= Seq::<FileState>::empty());
        while i < files.len()
            invariant
                i <= files@.len(),
                count == count_processed(files@.subrange(0, i as int)),
                count <= i,
                paths_unique(files@.subrange(0, i as int)),
            decreases files@.len() - i,
        {
            let ghost pre = files@.subrange(0, i as int);
            let ghost next = files@.subrange(0, i + 1);
            assert(next.drop_last() =~= pre);
            let mut j: usize = 0;
            while j < i
                invariant
                    i < files@.len(),
                    j <= i,
                    forall|k: int| 0 <= k < j ==> files@[k].path@ != files@[i as int].path@,
                decreases i - j,
            {
                if str_eq(files[j].path.as_str(), files[i].path.as_str()) {
                    proof {
                        if paths_unique(files@) {
                            assert(files@[j as int].path@ != files@[i as int].path@);
                        }
                    }
                    return Err(crate::error::MawError::State(String::from_str("two records under one path")));
                }
                j += 1;
            }
            if files[i].processed {
                count = count + 1;
            }
            assert forall|a: int, b: int| 0 <= a < b < next.len() implies next[a].path@ != next[b].path@ by {
                if b < i {
                    assert(next[a] == pre[a] && next[b] == pre[b]);
                }
            }
            i += 1;
        }
        assert(files@.subrange(0, files@.len() as int) =~= files@);
        Ok(ProcessingState {
            version,
            created_at,
            updated_at,
            total_files: files.len(),
            processed_files: count,
            files,
            output_path,
            output_format,
            total_bytes,
            processed_bytes,
        })
    }
}

/// A record as registered: for `path` with `format` and `size`, not
/// processed, no position, zero counts.
pub open spec fn is_fresh(f: FileState, path: String, format: String, size: u64) -> bool {
    &&& f.path == path
    &&& f.format == format
    &&& f.size == size
    &&& !f.processed
    &&& f.last_offset is None
    &&& f.last_row_group is None
    &&& f.bytes_processed == 0
    &&& f.rows_processed == 0
}

/// The counters after the record `prev` is registered again with `size`
/// bytes: its processed mark and bytes leave the processed counters, its old
/// size leaves the byte total, and the file count stays.
pub open spec fn reregistered(before: ProcessingState, after: ProcessingState, prev: FileState, size: u64) -> bool {
    &&& after.total_files == before.total_files
    &&& after.total_bytes == sat_sub(before.total_bytes, prev.size) + size
    &&& after.processed_files == before.processed_files - if prev.processed {
        1int
    } else {
        0int
    }
    &&& after.processed_bytes == if prev.processed {
        sat_sub(before.processed_bytes, prev.bytes_processed)
    } else {
        before.processed_bytes as int
    }
}

} // verus!
