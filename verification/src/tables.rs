//! Tables in text form, as the `csv` crate reads them.

use vstd::prelude::*;

verus! {

/// The rows of a table in the notation of comma-separated values, each row
/// a list of fields, the first row left out as the head of the table;
/// nothing where the text cannot be read as such a table.
pub uninterp spec fn csv_rows(text: Seq<char>) -> Option<Seq<Seq<Seq<char>>>>;

/// The rows of a table as lists of fields.
pub open spec fn row_views(rows: Seq<Vec<String>>) -> Seq<Seq<Seq<char>>> {
    rows.map_values(|r: Vec<String>| crate::text::string_views(r@))
}

/// Reads `text` with `csv::Reader::from_reader` and copies out the fields of
/// every record that `Reader::records` hands out; the first error of the
/// reader ends the reading with nothing. The outcome depends on the text
/// alone, which is all that the contract claims: it gives the outcome its
/// name.
#[verifier::external_body]
pub(crate) fn read_csv(text: &str) -> (r: Option<Vec<Vec<String>>>)
    ensures
        r is Some <==> csv_rows(text@) is Some,
        r is Some ==> row_views(r->0@) == csv_rows(text@)->0,
{
    let mut rdr = csv::Reader::from_reader(text.as_bytes());
    let rows: Result<Vec<Vec<String>>, csv::Error> = rdr.records().map(
        |rec| rec.map(|rec| rec.iter().map(|f| f.to_owned()).collect()),
    ).collect();
    rows.ok()
}

/// The records of a table whose fields are separated by tabs, without a
/// head, with records of any length and with `#` at the start of a line
/// marking a comment: each record as the list of its fields, or nothing for
/// a record that cannot be read.
pub uninterp spec fn tsv_records(text: Seq<char>) -> Seq<Option<Seq<Seq<char>>>>;

/// Records as lists of fields.
pub open spec fn record_views(records: Seq<Option<Vec<String>>>) -> Seq<Option<Seq<Seq<char>>>> {
    records.map_values(
        |r: Option<Vec<String>>|
            match r {
                Some(fields) => Some(crate::text::string_views(fields@)),
                None => None,
            },
    )
}

/// Reads `text` with a `csv::ReaderBuilder` set up for tabs, no head, records
/// of any length and `#` for comments, and copies out the fields of every
/// record that `Reader::records` hands out, with nothing in place of one
/// that came with an error. The outcome depends on the text alone, which is
/// all that the contract claims: it gives the outcome its name.
#[verifier::external_body]
pub(crate) fn read_tsv(text: &str) -> (r: Vec<Option<Vec<String>>>)
    ensures
        record_views(r@) == tsv_records(text@),
{
    let mut rdr = csv::ReaderBuilder::new().has_headers(false).delimiter(b'\t').flexible(
        true,
    ).comment(Some(b'#')).from_reader(text.as_bytes());
    rdr.records().map(|rec| rec.ok().map(|rec| rec.iter().map(|f| f.to_owned()).collect())).collect()
}

/// The first `n` records without those that could not be read.
pub open spec fn readable(records: Seq<Option<Seq<Seq<char>>>>, n: int) -> Seq<Seq<Seq<char>>>
    decreases n,
{
    if n <= 0 || n > records.len() {
        Seq::empty()
    } else {
        match records[n - 1] {
            Some(fields) => readable(records, n - 1).push(fields),
            None => readable(records, n - 1),
        }
    }
}

/// The rows of a table whose fields are separated by tabs: its records
/// without those that cannot be read.
pub open spec fn tsv_rows(text: Seq<char>) -> Seq<Seq<Seq<char>>> {
    readable(tsv_records(text), tsv_records(text).len() as int)
}

/// Reads a table whose fields are separated by tabs. A record that cannot
/// be read is passed over.
pub fn read_rows(text: &str) -> (rows: Vec<Vec<String>>)
    ensures
        row_views(rows@) == tsv_rows(text@),
{
    let records = read_tsv(text);
    let ghost all = record_views(records@);
    let mut rows: Vec<Vec<String>> = Vec::new();
    let mut i: usize = 0;
    assert(row_views(rows@) =~= readable(all, 0));
    while i < records.len()
        invariant
            i <= records.len(),
            all == record_views(records@),
            row_views(rows@) == readable(all, i as int),
        decreases records.len() - i,
    {
        let ghost before = row_views(rows@);
        match &records[i] {
            Some(fields) => {
                rows.push(crate::text::clone_texts(fields));
                assert(row_views(rows@) =~= before.push(crate::text::string_views(fields@)));
            },
            None => {},
        }
        i += 1;
    }
    rows
}

} // verus!
