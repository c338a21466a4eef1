use vstd::prelude::*;

use crate::error::Error;
use crate::strutil::{table_views_of, views_of};

verus! {

/// The table that the TSV reader extracts from a byte stream: the header
/// row and the data rows, in order. `None` stands for a malformed stream
/// (unequal row lengths, a broken quote, or invalid UTF-8).
pub uninterp spec fn tsv_table_of(data: Seq<u8>) -> Option<(Seq<Seq<char>>, Seq<Seq<Seq<char>>>)>;

/// Relies on csv::ReaderBuilder / csv::Reader: reads a tab-delimited table
/// with a header row, skipping lines that begin with `#`; the result is a
/// function of the bytes alone.
#[verifier::external_body]
pub(crate) fn read_tsv_table(data: &[u8]) -> (r: Result<(Vec<String>, Vec<Vec<String>>), Error>)
    ensures
        match r {
            Ok(t) => tsv_table_of(data@) == Some((views_of(t.0@), table_views_of(t.1@))),
            Err(e) => tsv_table_of(data@) is None && e is Csv,
        },
{
    let mut rd = csv::ReaderBuilder::new().has_headers(true).delimiter(b'\t').comment(
        Some(b'#'),
    ).from_reader(data);
    let header: Vec<String> = match rd.headers() {
        Ok(h) => h.iter().map(str::to_string).collect(),
        Err(e) => return Err(Error::Csv(e.to_string())),
    };
    let rows: Result<Vec<Vec<String>>, csv::Error> = rd.records().map(
        |r| r.map(|rec| rec.iter().map(str::to_string).collect()),
    ).collect();
    match rows {
        Ok(rows) => Ok((header, rows)),
        Err(e) => Err(Error::Csv(e.to_string())),
    }
}

} // verus!
