//! The client's address book-keeping: a server address held as
//! `host:port`, built once and reused for every connection the caller
//! opens.

use vstd::prelude::*;
use vstd::string::StringExecFns;

use crate::numbers::nat_chars;
use crate::numbers::u64_to_string;

verus! {

/// A codec-aware client of the store server. It holds the server's
/// address; the caller opens one connection per request, sends a request
/// built with the codec and decodes the response payload with it.
pub struct RubinClient {
    /// The server's address, as `host:port`.
    pub address: String,
}

impl RubinClient {
    /// Builds a client for the given host and port: the address is the
    /// host, a colon and the port in decimal.
    pub fn new(addr: &str, port: usize) -> (r: Self)
        ensures
            r.address@ == addr@ + seq![':'] + nat_chars(port as int),
    {
        let mut address = addr.to_owned();
        address.append(":");
        let digits = u64_to_string(port as u64);
        address.append(digits.as_str());
        proof {
            reveal_strlit(":");
            assert(":"@ =~= seq![':']);
        }
        RubinClient { address }
    }
}

} // verus!
