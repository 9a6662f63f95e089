//! Where a query's data comes from: over HTTP or from a file.
use vstd::prelude::*;
use vstd::string::StringSliceAdditionalSpecFns;
use vstd::utf8::is_char_boundary;

verus! {

/// Data to fetch over the network, from this URL.
pub struct NetFetcher<'a>(pub &'a str);

/// Data to read from the file at this path.
pub struct FileFetcher<'a>(pub &'a str);

/// The fetcher a source asks for.
pub enum DataSource<'a> {
    Net(NetFetcher<'a>),
    File(FileFetcher<'a>),
}

/// The bytes of `http`.
pub open spec fn http_bytes() -> Seq<u8> {
    seq![0x68u8, 0x74u8, 0x74u8, 0x70u8]
}

/// A source whose first four bytes spell `http` is fetched over the
/// network; any other from a file.
pub fn retrieve_source<'a>(source: &'a str) -> (r: DataSource<'a>)
    requires
        source.spec_bytes().len() >= 4,
        is_char_boundary(source.spec_bytes(), 4),
    ensures
        source.spec_bytes().take(4) == http_bytes() ==> (r matches DataSource::Net(f) && f.0 == source),
        source.spec_bytes().take(4) != http_bytes() ==> (r matches DataSource::File(f) && f.0 == source),
{
    let b = source.as_bytes();
    if b[0] == 0x68u8 && b[1] == 0x74u8 && b[2] == 0x74u8 && b[3] == 0x70u8 {
        assert(source.spec_bytes().take(4) =~= http_bytes());
        DataSource::Net(NetFetcher(source))
    } else {
        assert(source.spec_bytes().take(4) != http_bytes()) by {
            if source.spec_bytes().take(4) == http_bytes() {
                assert(source.spec_bytes().take(4)[0] == b@[0]);
                assert(source.spec_bytes().take(4)[1] == b@[1]);
                assert(source.spec_bytes().take(4)[2] == b@[2]);
                assert(source.spec_bytes().take(4)[3] == b@[3]);
            }
        }
        DataSource::File(FileFetcher(source))
    }
}

} // verus!
