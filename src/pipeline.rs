use vstd::prelude::*;
use crate::cli::{Cli, OutputFormat, determine_output_format};
use crate::discover::extension_of;
use crate::schema::UnifiedSchema;

verus! {

/// A run's options and the unified schema it writes.
#[derive(Debug, Clone)]
pub struct Pipeline {
    pub cli: Cli,
    pub unified_schema: UnifiedSchema,
}

impl Pipeline {
    /// A run with the given options and, until inputs are sampled, an empty
    /// schema.
    pub fn new(cli: Cli) -> (r: Self)
        ensures
            r.cli == cli,
            r.unified_schema.columns@.len() == 0,
    {
        Pipeline { cli, unified_schema: UnifiedSchema::new() }
    }

    /// The format of the output at `path`: the one asked for, else by the
    /// path's extension.
    pub fn determine_output_format(&self, path: &str) -> (r: OutputFormat)
        ensures
            r == match self.cli.out_format {
                Some(f) => f,
                None => if extension_of(path@) == Some("parquet"@) {
                    OutputFormat::Parquet
                } else {
                    OutputFormat::Csv
                },
            },
    {
        determine_output_format(self.cli.out_format, path)
    }
}

} // verus!
