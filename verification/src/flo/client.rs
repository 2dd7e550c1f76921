//! Addresses of the FLO API.

use vstd::prelude::*;
use vstd::string::*;

verus! {

/// The FLO API origin used unless the configuration names another.
pub const DEFAULT_API_ORIGIN: &'static str = "https://emobility.flo.ca";

/// The address of a park in the FLO API.
pub fn park_url(api_origin: &str, park_id: &str) -> (r: String)
    ensures
        r@ == api_origin@ + "/v3.0/parks/"@ + park_id@ + "/"@,
{
    let mut r = String::from_str(api_origin);
    r.append("/v3.0/parks/");
    r.append(park_id);
    r.append("/");
    r
}

} // verus!
