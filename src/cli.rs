use vstd::prelude::*;
use crate::discover::{extension_of, last_index_of};
use crate::error::MawError;
use crate::schema::str_eq;

verus! {

/// Output formats.
#[derive(Debug, Clone, Copy, PartialEq, Eq, Structural)]
pub enum OutputFormat {
    Csv,
    Parquet,
}

/// Compression of columnar output.
#[derive(Debug, Clone, Copy, PartialEq, Eq, Structural)]
pub enum Compression {
    Uncompressed,
    Snappy,
    Gzip,
    Zstd,
}

impl OutputFormat {
    /// The format's name as options write it.
    pub fn name(&self) -> (r: &'static str)
        ensures
            r@ == match self {
                OutputFormat::Csv => "csv"@,
                OutputFormat::Parquet => "parquet"@,
            },
    {
        match self {
            OutputFormat::Csv => "csv",
            OutputFormat::Parquet => "parquet",
        }
    }
}

impl Compression {
    /// The algorithm's name as options write it.
    pub fn name(&self) -> (r: &'static str)
        ensures
            r@ == match self {
                Compression::Uncompressed => "none"@,
                Compression::Snappy => "snappy"@,
                Compression::Gzip => "gzip"@,
                Compression::Zstd => "zstd"@,
            },
    {
        match self {
            Compression::Uncompressed => "none",
            Compression::Snappy => "snappy",
            Compression::Gzip => "gzip",
            Compression::Zstd => "zstd",
        }
    }
}

/// The resolved options of a run.
#[derive(Debug, Clone)]
pub struct Cli {
    pub inputs: Vec<String>,
    pub out: Option<String>,
    pub out_format: Option<OutputFormat>,
    pub delimiter: Option<char>,
    pub quote: Option<char>,
    pub no_headers: bool,
    pub encoding: String,
    pub na: String,
    pub columns: Option<String>,
    pub exclude: Option<String>,
    pub rename: Vec<String>,
    pub reorder: bool,
    pub stringify_conflicts: bool,
    pub infer_rows: usize,
    pub roll_by_bytes: Option<u64>,
    pub roll_by_rows: Option<u64>,
    pub compression: Compression,
    pub zstd_level: u32,
    pub concurrency: usize,
    pub queue_capacity: usize,
    pub writer_buffer: usize,
    pub mem_budget: usize,
    pub no_recursive: bool,
    pub follow_symlinks: bool,
    pub state: Option<String>,
    pub resume: bool,
    pub verify: bool,
    pub progress: bool,
    pub no_progress: bool,
    pub json_logs: bool,
    pub plan: bool,
    pub dry_run: bool,
    pub verbose: u8,
    pub quiet: bool,
}

impl Cli {
    /// The options of a run over `inputs` with every other option at its
    /// default.
    pub fn new(inputs: Vec<String>) -> (r: Self)
        ensures
            r.inputs == inputs,
            r.out is None && r.out_format is None,
            r.encoding@ == "utf8"@,
            r.na@ == "NA,null,\\N"@,
            r.infer_rows == 1000,
            r.compression == Compression::Uncompressed,
            r.zstd_level == 3,
            r.concurrency == 4,
            r.queue_capacity == 8,
            r.writer_buffer == 64,
            r.mem_budget == 1024,
            r.progress,
            !r.stringify_conflicts && !r.reorder && !r.no_headers,
            !r.plan && !r.dry_run && !r.resume,
            r.roll_by_bytes is None && r.roll_by_rows is None,
    {
        Cli {
            inputs,
            out: None,
            out_format: None,
            delimiter: None,
            quote: None,
            no_headers: false,
            encoding: String::from_str("utf8"),
            na: String::from_str("NA,null,\\N"),
            columns: None,
            exclude: None,
            rename: Vec::new(),
            reorder: false,
            stringify_conflicts: false,
            infer_rows: 1000,
            roll_by_bytes: None,
            roll_by_rows: None,
            compression: Compression::Uncompressed,
            zstd_level: 3,
            concurrency: 4,
            queue_capacity: 8,
            writer_buffer: 64,
            mem_budget: 1024,
            no_recursive: false,
            follow_symlinks: false,
            state: None,
            resume: false,
            verify: false,
            progress: true,
            no_progress: false,
            json_logs: false,
            plan: false,
            dry_run: false,
            verbose: 0,
            quiet: false,
        }
    }

    /// Contradictions in the options: no inputs, no workers, no room in the
    /// batch queue, no rows to sample, a zstd level outside 1 to 19, or
    /// resuming without a state file.
    pub open spec fn invalid(&self) -> bool {
        ||| self.inputs@.len() == 0
        ||| self.concurrency == 0
        ||| self.queue_capacity == 0
        ||| self.infer_rows == 0
        ||| !(1 <= self.zstd_level <= 19)
        ||| (self.resume && self.state is None)
    }

    /// Checks the options for contradictions.
    pub fn validate(&self) -> (r: Result<(), MawError>)
        ensures
            r is Ok <==> !self.invalid(),
            r is Err ==> r->Err_0 is InvalidInput,
    {
        if self.inputs.len() == 0 {
            Err(MawError::InvalidInput(String::from_str("no inputs given")))
        } else if self.concurrency == 0 {
            Err(MawError::InvalidInput(String::from_str("concurrency must be at least 1")))
        } else if self.queue_capacity == 0 {
            Err(MawError::InvalidInput(String::from_str("queue capacity must be at least 1")))
        } else if self.infer_rows == 0 {
            Err(MawError::InvalidInput(String::from_str("infer-rows must be at least 1")))
        } else if !(1 <= self.zstd_level && self.zstd_level <= 19) {
            Err(MawError::InvalidInput(String::from_str("zstd level must be between 1 and 19")))
        } else if self.resume && self.state.is_none() {
            Err(MawError::InvalidInput(String::from_str("resume needs a state file")))
        } else {
            Ok(())
        }
    }
}

/// The output format: the one asked for, else `parquet` when the output
/// path's extension says so, else delimited text.
pub fn determine_output_format(asked: Option<OutputFormat>, path: &str) -> (r: OutputFormat)
    ensures
        r == match asked {
            Some(f) => f,
            None => if extension_of(path@) == Some("parquet"@) {
                OutputFormat::Parquet
            } else {
                OutputFormat::Csv
            },
        },
{
    match asked {
        Some(f) => f,
        None => {
            match crate::discover::extension(path) {
                Some(e) => if str_eq(e, "parquet") {
                    OutputFormat::Parquet
                } else {
                    OutputFormat::Csv
                },
                None => OutputFormat::Csv,
            }
        },
    }
}

/// The pieces of `s` between the commas.
pub open spec fn split_commas(s: Seq<char>) -> Seq<Seq<char>>
    decreases s.len(),
    via split_commas_decreases
{
    let k = last_index_of(s, ',');
    if k < 0 {
        seq![s]
    } else {
        split_commas(s.subrange(0, k)).push(s.subrange(k + 1, s.len() as int))
    }
}

#[via_fn]
proof fn split_commas_decreases(s: Seq<char>) {
    crate::discover::lemma_last_index_bounds(s, ',');
}

/// Splits a comma-separated option value; each piece is kept as written.
pub fn split_list(s: &str) -> (r: Vec<String>)
    ensures
        r@.map_values(|x: String| x@) == split_commas(s@),
    decreases s@.len(),
{
    let n = s.unicode_len();
    proof {
        crate::discover::lemma_last_index_bounds(s@, ',');
    }
    match crate::discover::last_index(s, ',') {
        None => {
            let mut v = Vec::new();
            v.push(s.to_owned());
            assert(v@.map_values(|x: String| x@) =~= seq![s@]);
            v
        },
        Some(k) => {
            let head = s.substring_char(0, k);
            let tail = s.substring_char(k + 1, n);
            let mut v = split_list(head);
            let ghost before = v@;
            v.push(tail.to_owned());
            assert(v@.map_values(|x: String| x@) =~= before.map_values(|x: String| x@).push(tail@));
            v
        },
    }
}

/// A rename option `old=new`, split at its first `=`; both sides must be
/// nonempty.
pub open spec fn rename_pair(s: Seq<char>) -> Option<(Seq<char>, Seq<char>)> {
    if exists|k: int| 0 <= k < s.len() && s[k] == '=' {
        let k = choose|k: int| 0 <= k < s.len() && s[k] == '=' && forall|j: int| 0 <= j < k ==> s[j] != '=';
        if k > 0 && k + 1 < s.len() {
            Some((s.subrange(0, k), s.subrange(k + 1, s.len() as int)))
        } else {
            None
        }
    } else {
        None
    }
}

/// Parses a rename option; a value without `=`, or with an empty side, is
/// invalid input.
pub fn parse_rename(s: &str) -> (r: Result<(String, String), MawError>)
    ensures
        match rename_pair(s@) {
            Some((a, b)) => r is Ok && r->Ok_0.0@ == a && r->Ok_0.1@ == b,
            None => r is Err && r->Err_0 is InvalidInput,
        },
{
    let n = s.unicode_len();
    let mut k: usize = 0;
    while k < n
        invariant
            k <= n == s@.len(),
            forall|j: int| 0 <= j < k ==> s@[j] != '=',
        decreases n - k,
    {
        if s.get_char(k) == '=' {
            let ghost c = choose|c: int| 0 <= c < s@.len() && s@[c] == '=' && forall|j: int| 0 <= j < c ==> s@[j] != '=';
            assert(c == k) by {
                if c < k {
                } else if c > k {
                    assert(s@[k as int] != '=');
                }
            }
            if k > 0 && k + 1 < n {
                let a = s.substring_char(0, k);
                let b = s.substring_char(k + 1, n);
                return Ok((a.to_owned(), b.to_owned()));
            } else {
                return Err(MawError::InvalidInput(String::from_str("rename needs old=new")));
            }
        }
        k += 1;
    }
    Err(MawError::InvalidInput(String::from_str("rename needs old=new")))
}

} // verus!
