//! The built-in relay endpoint roster: the mainnet relays this builder
//! submits to, loaded once at startup.

use vstd::prelude::*;
use crate::relay_endpoint::RelayEndpoint;

verus! {

/// The nine mainnet relay endpoints the builder is configured with, all
/// with compression enabled and no authorization header.
pub fn get_relay_endpoints() -> (r: Vec<RelayEndpoint>)
    ensures
        r@.len() == 9,
        r@[0].name@ == "ultrasound"@ && r@[0].url@ == "https://relay.ultrasound.money"@,
        r@[1].name@ == "bloxroute.max-profit"@ && r@[1].url@
            == "https://bloxroute.max-profit.blxrbdn.com"@,
        r@[2].name@ == "bloxroute.regulated"@ && r@[2].url@
            == "https://bloxroute.regulated.blxrbdn.com"@,
        r@[3].name@ == "flashbots"@ && r@[3].url@ == "https://boost-relay.flashbots.net"@,
        r@[4].name@ == "gnosis"@ && r@[4].url@ == "https://agnostic-relay.net"@,
        r@[5].name@ == "blocknative"@ && r@[5].url@
            == "https://builder-relay-mainnet.blocknative.com"@,
        r@[6].name@ == "aestus"@ && r@[6].url@ == "https://aestus.live"@,
        r@[7].name@ == "edennetwork"@ && r@[7].url@ == "https://relay.edennetwork.io"@,
        r@[8].name@ == "securerpc"@ && r@[8].url@ == "https://mainnet-relay.securerpc.com"@,
        forall|i: int|
            0 <= i < r@.len() ==> (#[trigger] r@[i]).is_gzip_enabled
                && r@[i].autorization_header is None && r@[i].alias_of is None,
{
    let mut v: Vec<RelayEndpoint> = Vec::new();
    v.push(RelayEndpoint::new("ultrasound", "https://relay.ultrasound.money", true, None));
    v.push(
        RelayEndpoint::new(
            "bloxroute.max-profit",
            "https://bloxroute.max-profit.blxrbdn.com",
            true,
            None,
        ),
    );
    v.push(
        RelayEndpoint::new(
            "bloxroute.regulated",
            "https://bloxroute.regulated.blxrbdn.com",
            true,
            None,
        ),
    );
    v.push(RelayEndpoint::new("flashbots", "https://boost-relay.flashbots.net", true, None));
    v.push(RelayEndpoint::new("gnosis", "https://agnostic-relay.net", true, None));
    v.push(
        RelayEndpoint::new(
            "blocknative",
            "https://builder-relay-mainnet.blocknative.com",
            true,
            None,
        ),
    );
    v.push(RelayEndpoint::new("aestus", "https://aestus.live", true, None));
    v.push(RelayEndpoint::new("edennetwork", "https://relay.edennetwork.io", true, None));
    v.push(RelayEndpoint::new("securerpc", "https://mainnet-relay.securerpc.com", true, None));
    v
}

} // verus!
