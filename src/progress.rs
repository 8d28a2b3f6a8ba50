use vstd::prelude::*;
use crate::clock::unix_millis;
use crate::text::{decimal, decimal_string};

verus! {

/// Run-wide counters of work done and work known.
#[derive(Debug, Clone)]
pub struct GlobalProgress {
    pub total_files: usize,
    pub processed_files: usize,
    pub total_bytes: u64,
    pub processed_bytes: u64,
    pub total_rows: u64,
    pub processed_rows: u64,
    /// Wall-clock start of the run, in milliseconds since the Unix epoch.
    pub start_time: u64,
}

/// Seconds left at the observed rate: the remaining bytes times the elapsed
/// time over the bytes done, or nothing while no byte is done or all are.
pub open spec fn eta_spec(processed: u64, total: u64, elapsed_millis: u64) -> Option<u64> {
    if 0 < processed && processed < total {
        let secs = ((total - processed) as int * elapsed_millis as int) / (processed as int * 1000);
        Some(if secs > u64::MAX as int { u64::MAX } else { secs as u64 })
    } else {
        None
    }
}

impl GlobalProgress {
    /// Counters for a run over `total_files` inputs of `total_bytes` bytes,
    /// started now.
    pub fn new(total_files: usize, total_bytes: u64) -> (r: Self)
        ensures
            r.total_files == total_files,
            r.total_bytes == total_bytes,
            r.processed_files == 0,
            r.processed_bytes == 0,
            r.total_rows == 0,
            r.processed_rows == 0,
    {
        GlobalProgress {
            total_files,
            processed_files: 0,
            total_bytes,
            processed_bytes: 0,
            total_rows: 0,
            processed_rows: 0,
            start_time: unix_millis(),
        }
    }

    /// Adds the bytes and rows of a written batch.
    pub fn update_file_progress(&mut self, bytes_processed: u64, rows_processed: u64)
        requires
            old(self).processed_bytes + bytes_processed <= u64::MAX,
            old(self).processed_rows + rows_processed <= u64::MAX,
        ensures
            final(self).processed_bytes == old(self).processed_bytes + bytes_processed,
            final(self).processed_rows == old(self).processed_rows + rows_processed,
            final(self).processed_files == old(self).processed_files,
            final(self).total_files == old(self).total_files,
            final(self).total_bytes == old(self).total_bytes,
            final(self).total_rows == old(self).total_rows,
            final(self).start_time == old(self).start_time,
    {
        self.processed_bytes = self.processed_bytes + bytes_processed;
        self.processed_rows = self.processed_rows + rows_processed;
    }

    /// Counts one more input as finished.
    pub fn mark_file_complete(&mut self)
        requires
            old(self).processed_files < usize::MAX,
        ensures
            final(self).processed_files == old(self).processed_files + 1,
            final(self).processed_bytes == old(self).processed_bytes,
            final(self).processed_rows == old(self).processed_rows,
            final(self).total_files == old(self).total_files,
            final(self).total_bytes == old(self).total_bytes,
            final(self).total_rows == old(self).total_rows,
            final(self).start_time == old(self).start_time,
    {
        self.processed_files = self.processed_files + 1;
    }

    /// Whole percent of the known bytes that are processed, rounded down
    /// (and capped at the largest `u64`); 0 when no bytes are known.
    pub fn progress_percent(&self) -> (r: u64)
        ensures
            self.total_bytes == 0 ==> r == 0,
            self.total_bytes > 0 ==> r as int == vstd::math::min(
                (self.processed_bytes as int * 100) / self.total_bytes as int,
                u64::MAX as int,
            ),
    {
        if self.total_bytes == 0 {
            0
        } else {
            let q = (self.processed_bytes as u128) * 100 / (self.total_bytes as u128);
            if q > u64::MAX as u128 {
                u64::MAX
            } else {
                q as u64
            }
        }
    }

    /// Bytes processed per second over `elapsed_millis` milliseconds, rounded
    /// down; 0 before any time has passed.
    pub fn throughput_after(&self, elapsed_millis: u64) -> (r: u64)
        ensures
            elapsed_millis == 0 ==> r == 0,
            elapsed_millis > 0 ==> r as int == vstd::math::min(
                (self.processed_bytes as int * 1000) / elapsed_millis as int,
                u64::MAX as int,
            ),
    {
        if elapsed_millis == 0 {
            0
        } else {
            let q = (self.processed_bytes as u128) * 1000 / (elapsed_millis as u128);
            if q > u64::MAX as u128 {
                u64::MAX
            } else {
                q as u64
            }
        }
    }

    /// The estimate after `elapsed_millis` milliseconds of work.
    pub fn eta_after(&self, elapsed_millis: u64) -> (r: Option<u64>)
        ensures
            r == eta_spec(self.processed_bytes, self.total_bytes, elapsed_millis),
    {
        if 0 < self.processed_bytes && self.processed_bytes < self.total_bytes {
            let remaining = (self.total_bytes - self.processed_bytes) as u128;
            assert(remaining * (elapsed_millis as u128) <= u64::MAX as int * u64::MAX as int)
                by (nonlinear_arith)
                requires
                    remaining <= u64::MAX,
                    elapsed_millis <= u64::MAX,
            ;
            let num = remaining * (elapsed_millis as u128);
            let den = (self.processed_bytes as u128) * 1000;
            assert(num == (self.total_bytes - self.processed_bytes) as int * elapsed_millis as int)
                by (nonlinear_arith)
                requires
                    remaining == (self.total_bytes - self.processed_bytes) as int,
                    num == remaining * elapsed_millis,
            ;
            let secs = num / den;
            if secs > u64::MAX as u128 {
                Some(u64::MAX)
            } else {
                Some(secs as u64)
            }
        } else {
            None
        }
    }

    /// Seconds left at the rate observed since the start of the run; known
    /// only while some but not all bytes are done.
    pub fn get_eta_seconds(&self) -> (r: Option<u64>)
        ensures
            r is Some <==> (0 < self.processed_bytes && self.processed_bytes < self.total_bytes),
    {
        let now = unix_millis();
        let elapsed = if now >= self.start_time {
            now - self.start_time
        } else {
            0
        };
        self.eta_after(elapsed)
    }
}

/// `h`, `m`, `s` with their values, as the largest nonzero unit starts.
pub open spec fn eta_text(eta_seconds: Option<u64>) -> Seq<char> {
    match eta_seconds {
        Some(s) => {
            let hours = s / 3600;
            let minutes = (s % 3600) / 60;
            let secs = s % 60;
            if hours > 0 {
                decimal(hours as nat) + seq!['h', ' '] + decimal(minutes as nat) + seq!['m', ' ']
                    + decimal(secs as nat) + seq!['s']
            } else if minutes > 0 {
                decimal(minutes as nat) + seq!['m', ' '] + decimal(secs as nat) + seq!['s']
            } else {
                decimal(secs as nat) + seq!['s']
            }
        },
        None => seq!['U', 'n', 'k', 'n', 'o', 'w', 'n'],
    }
}

/// A remaining time in hours, minutes and seconds, or `Unknown`.
pub fn format_eta(eta_seconds: Option<u64>) -> (r: String)
    ensures
        r@ == eta_text(eta_seconds),
{
    proof {
        reveal_strlit("h ");
        reveal_strlit("m ");
        reveal_strlit("s");
        reveal_strlit("Unknown");
    }
    match eta_seconds {
        Some(seconds) => {
            let hours = seconds / 3600;
            let minutes = (seconds % 3600) / 60;
            let secs = seconds % 60;
            let mut out = String::new();
            if hours > 0 {
                out.append(decimal_string(hours).as_str());
                out.append("h ");
                out.append(decimal_string(minutes).as_str());
                out.append("m ");
            } else if minutes > 0 {
                out.append(decimal_string(minutes).as_str());
                out.append("m ");
            }
            out.append(decimal_string(secs).as_str());
            out.append("s");
            assert(out@ =~= eta_text(eta_seconds));
            out
        },
        None => String::from_str("Unknown"),
    }
}

} // verus!
