//! Per-relay configuration and the relay-specific encoding of a block
//! submission. The HTTP transport itself is a collaborator concern; what is
//! sent, and how it is framed and compressed, is decided and verified here.

use vstd::prelude::*;
use crate::types::SignedBidSubmission;
use crate::wire::{serialize_signed_bid_submission, spec_wire_submission};

verus! {

/// Static configuration of one relay endpoint, loaded once at startup and
/// immutable for the process lifetime.
pub struct RelayEndpoint {
    pub name: String,
    pub url: String,
    pub is_gzip_enabled: bool,
    pub autorization_header: Option<String>,
    /// Optional cross-reference to another configured endpoint's URL, used
    /// for shared-infrastructure dedup bookkeeping. When set, it must name
    /// the URL of another configured endpoint.
    pub alias_of: Option<String>,
}

/// The static configuration is invalid.
#[derive(Debug, Clone, Copy, PartialEq, Eq)]
pub enum ConfigError {
    /// An `alias_of` cross-reference names no other configured endpoint.
    InvalidAliasReference,
}

/// The result of gzip-compressing a byte string with the flate2 crate at
/// its `fast` level: a deterministic function of the input alone (the
/// stream's header carries no time stamp and a fixed operating-system
/// byte).
pub uninterp spec fn gzip_of(data: Seq<u8>) -> Seq<u8>;

/// Relies on flate2's write::GzEncoder at Compression::fast writing into a
/// Vec: in-memory compression, reproducible across platforms. It always
/// succeeds: the encoder's only error source is its underlying writer, and
/// writing into a Vec never fails.
#[verifier::external_body]
fn gzip_compress(data: &Vec<u8>) -> (r: Result<Vec<u8>, ()>)
    ensures
        r is Ok,
        r matches Ok(v) ==> v@ == gzip_of(data@),
{
    let mut compressed_buffer = Vec::new();
    let mut gz = flate2::write::GzEncoder::new(&mut compressed_buffer, flate2::Compression::fast());
    match std::io::Write::write_all(&mut gz, data.as_slice()) {
        Ok(()) => {},
        Err(_) => {
            return Err(());
        },
    }
    match gz.finish() {
        Ok(_) => Ok(compressed_buffer),
        Err(_) => Err(()),
    }
}

impl RelayEndpoint {
    /// A relay endpoint configuration with no cross-reference alias.
    pub fn new(
        name: &str,
        url: &str,
        is_gzip_enabled: bool,
        autorization_header: Option<String>,
    ) -> (r: RelayEndpoint)
        ensures
            r.name@ == name@,
            r.url@ == url@,
            r.is_gzip_enabled == is_gzip_enabled,
            r.autorization_header == autorization_header,
            r.alias_of is None,
    {
        RelayEndpoint {
            name: name.to_owned(),
            url: url.to_owned(),
            is_gzip_enabled,
            autorization_header,
            alias_of: None,
        }
    }

    /// The body and framing of a block submission to this relay: the wire
    /// JSON of the submission, gzip-compressed exactly when this endpoint
    /// has compression enabled. Encoding always succeeds. The boolean of
    /// the pair says whether the body is compressed, i.e. whether a
    /// `Content-Encoding: gzip` header is owed.
    pub fn encode(&self, bid: &SignedBidSubmission) -> (r: Result<(Vec<u8>, bool), ()>)
        ensures
            r is Ok,
            r matches Ok(p) ==> p.1 == self.is_gzip_enabled,
            r matches Ok(p) ==> (if p.1 {
                p.0@ == gzip_of(spec_wire_submission(*bid))
            } else {
                p.0@ == spec_wire_submission(*bid)
            }),
    {
        let payload = serialize_signed_bid_submission(bid);
        if self.is_gzip_enabled {
            match gzip_compress(&payload) {
                Ok(compressed) => Ok((compressed, true)),
                Err(_) => Err(()),
            }
        } else {
            Ok((payload, false))
        }
    }
}

/// Every `alias_of` cross-reference must name the URL of another configured
/// endpoint; a violation is fatal at startup.
pub fn validate_endpoints(endpoints: &Vec<RelayEndpoint>) -> (r: Result<(), ConfigError>)
    ensures
        r is Ok <==> (forall|i: int|
            0 <= i < endpoints@.len() ==> (#[trigger] endpoints@[i].alias_of matches Some(a)
                ==> exists|j: int|
                    0 <= j < endpoints@.len() && j != i && (#[trigger] endpoints@[j].url)@ == a@)),
{
    let n = endpoints.len();
    let mut i: usize = 0;
    while i < n
        invariant
            0 <= i <= n == endpoints@.len(),
            forall|t: int|
                0 <= t < i ==> (#[trigger] endpoints@[t].alias_of matches Some(a) ==> exists|j: int|
                    0 <= j < endpoints@.len() && j != t && (#[trigger] endpoints@[j].url)@ == a@),
        decreases n - i,
    {
        match &endpoints[i].alias_of {
            None => {},
            Some(a) => {
                let mut found = false;
                let mut j: usize = 0;
                while j < n
                    invariant
                        0 <= j <= n == endpoints@.len(),
                        0 <= i < n,
                        endpoints@[i as int].alias_of matches Some(aa) && aa@ == a@,
                        found <==> exists|t: int|
                            0 <= t < j && t != i && (#[trigger] endpoints@[t].url)@ == a@,
                    decreases n - j,
                {
                    if j != i && endpoints[j].url.eq(a) {
                        found = true;
                    }
                    j = j + 1;
                }
                if !found {
                    return Err(ConfigError::InvalidAliasReference);
                }
            },
        }
        i = i + 1;
    }
    Ok(())
}

} // verus!
