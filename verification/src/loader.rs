//! Which loader reads the content a query fetched.
use vstd::prelude::*;

verus! {

/// Content to read as comma-separated values.
pub struct CsvLoader(pub String);

/// The loaders that fetched content can be read with.
pub enum DataLoader {
    CsvLoader(CsvLoader),
}

/// The loader for `content`: every content is read as CSV.
pub fn detect_content(content: String) -> (l: DataLoader)
    ensures
        l matches DataLoader::CsvLoader(c) && c.0@ == content@,
{
    DataLoader::CsvLoader(CsvLoader(content))
}

} // verus!
