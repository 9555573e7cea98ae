use vstd::prelude::*;

verus! {

#[verifier::external_type_specification]
#[verifier::external_body]
pub struct ExCsvError(csv::Error);

/// The physical rows, field by field, that csv's reader makes of `text` split
/// on `delimiter`; `None` where the reader reports an error.
pub uninterp spec fn csv_rows(text: Seq<u8>, delimiter: u8) -> Option<Seq<Seq<Seq<char>>>>;

/// The bytes that csv's writer produces for `rows` separated by `delimiter`;
/// `None` where the writer reports an error.
pub uninterp spec fn csv_bytes(rows: Seq<Seq<Seq<char>>>, delimiter: u8) -> Option<Seq<u8>>;

/// Relies on csv's `ReaderBuilder` (header handling off, rows of any width)
/// and `Reader::records`: every row of `text`, first one included, in order,
/// or the first error met.
#[verifier::external_body]
pub(crate) fn read_rows(text: &[u8], delimiter: u8) -> (r: Result<Vec<Vec<String>>, csv::Error>)
    ensures
        match r {
            Ok(rows) => csv_rows(text@, delimiter) == Some(rows.deep_view()),
            Err(_) => csv_rows(text@, delimiter) is None,
        },
{
    let mut reader = csv::ReaderBuilder::new().has_headers(false).delimiter(delimiter).flexible(
        true,
    ).from_reader(text);
    reader.records().map(|rec| rec.map(|rec| rec.iter().map(|f| f.to_string()).collect())).collect()
}

/// Relies on csv's `WriterBuilder` with `delimiter`, `Writer::write_record` for
/// each row in order and `Writer::into_inner` over an in-memory buffer.
#[verifier::external_body]
pub(crate) fn write_rows(rows: &Vec<Vec<String>>, delimiter: u8) -> (r: Result<Vec<u8>, csv::Error>)
    ensures
        match r {
            Ok(bytes) => csv_bytes(rows.deep_view(), delimiter) == Some(bytes@),
            Err(_) => csv_bytes(rows.deep_view(), delimiter) is None,
        },
{
    let mut writer = csv::WriterBuilder::new().delimiter(delimiter).from_writer(Vec::new());
    for row in rows.iter() {
        writer.write_record(row)?;
    }
    writer.into_inner().map_err(|e| csv::Error::from(e.into_error()))
}

} // verus!
