use vstd::prelude::*;
use crate::batch::Batch;
use crate::cli::Compression;
use crate::schema::ColumnSchema;
use crate::value::{Value, ValueModel, text_of, value_text};

verus! {

/// Options of the delimited-text writer.
#[derive(Debug, Clone)]
pub struct CsvWriterConfig {
    pub delimiter: u8,
    pub quote: u8,
    pub na_string: String,
}

impl CsvWriterConfig {
    /// Comma-delimited, double-quoted, nulls written as empty fields.
    pub fn default() -> (r: Self)
        ensures
            r.delimiter == 0x2c,
            r.quote == 0x22,
            r.na_string@.len() == 0,
    {
        CsvWriterConfig { delimiter: 0x2c, quote: 0x22, na_string: String::new() }
    }
}

/// The header record: the schema's column names, in order.
pub fn header_record(schema: &Vec<ColumnSchema>) -> (r: Vec<String>)
    ensures
        r@.len() == schema@.len(),
        forall|c: int| 0 <= c < schema@.len() ==> (#[trigger] r@[c])@ == schema@[c].name@,
{
    let mut r: Vec<String> = Vec::new();
    let mut c: usize = 0;
    while c < schema.len()
        invariant
            c <= schema@.len(),
            r@.len() == c,
            forall|k: int| 0 <= k < c ==> (#[trigger] r@[k])@ == schema@[k].name@,
        decreases schema@.len() - c,
    {
        r.push(schema[c].name.clone());
        c += 1;
    }
    r
}

/// A cell as written: the NA string for a null, else its canonical text.
pub open spec fn cell_text(v: ValueModel, na: Seq<char>) -> Seq<char> {
    if v is Null {
        na
    } else {
        text_of(v)
    }
}

/// The fields of row `row` of a batch.
pub fn row_record(batch: &Batch, row: usize, na: &str) -> (r: Vec<String>)
    requires
        batch.wf(),
        row < batch.num_rows,
    ensures
        r@.len() == batch.columns@.len(),
        forall|c: int|
            0 <= c < batch.columns@.len() ==> (#[trigger] r@[c])@ == cell_text(
                batch.columns@[c]@[row as int]@,
                na@,
            ),
{
    let mut r: Vec<String> = Vec::new();
    let mut c: usize = 0;
    while c < batch.columns.len()
        invariant
            batch.wf(),
            row < batch.num_rows,
            c <= batch.columns@.len(),
            r@.len() == c,
            forall|k: int|
                0 <= k < c ==> (#[trigger] r@[k])@ == cell_text(batch.columns@[k]@[row as int]@, na@),
        decreases batch.columns@.len() - c,
    {
        assert(batch.columns@[c as int]@.len() == batch.num_rows);
        let v = &batch.columns[c][row];
        if let Value::Null = v {
            r.push(na.to_owned());
        } else {
            r.push(value_text(v));
        }
        c += 1;
    }
    r
}

/// Options of the columnar writer.
#[derive(Debug, Clone, Copy)]
pub struct ParquetWriterConfig {
    /// Uncompressed bytes buffered before a row group is cut.
    pub row_group_size: usize,
    pub compression: Compression,
    pub zstd_level: u32,
}

/// The codec a columnar file is written with.
#[derive(Debug, Clone, Copy, PartialEq, Eq, Structural)]
pub enum Codec {
    Uncompressed,
    Snappy,
    Gzip,
    Zstd(u32),
}

impl ParquetWriterConfig {
    /// Row groups of 128 MiB, no compression, zstd level 3 when chosen.
    pub fn default() -> (r: Self)
        ensures
            r.row_group_size == 128 * 1024 * 1024,
            r.compression == Compression::Uncompressed,
            r.zstd_level == 3,
    {
        ParquetWriterConfig {
            row_group_size: 128 * 1024 * 1024,
            compression: Compression::Uncompressed,
            zstd_level: 3,
        }
    }

    /// The codec to use: zstd takes the configured level when it lies in 1
    /// to 19 and level 3 otherwise.
    pub fn codec(&self) -> (r: Codec)
        ensures
            r == match self.compression {
                Compression::Uncompressed => Codec::Uncompressed,
                Compression::Snappy => Codec::Snappy,
                Compression::Gzip => Codec::Gzip,
                Compression::Zstd => Codec::Zstd(
                    if 1 <= self.zstd_level <= 19 {
                        self.zstd_level
                    } else {
                        3
                    },
                ),
            },
    {
        match self.compression {
            Compression::Uncompressed => Codec::Uncompressed,
            Compression::Snappy => Codec::Snappy,
            Compression::Gzip => Codec::Gzip,
            Compression::Zstd => Codec::Zstd(
                if 1 <= self.zstd_level && self.zstd_level <= 19 {
                    self.zstd_level
                } else {
                    3
                },
            ),
        }
    }

    /// Whether the buffered rows make a full row group.
    pub fn row_group_full(&self, buffered_bytes: u64) -> (r: bool)
        ensures
            r == (buffered_bytes >= self.row_group_size),
    {
        buffered_bytes >= self.row_group_size as u64
    }
}

} // verus!
