//! Addresses of the Telegram Bot API.

use vstd::prelude::*;
use vstd::string::*;

verus! {

/// The address of a Bot API method for the bot with the given token.
pub fn build_endpoint(auth_token: &str, method_name: &str) -> (r: String)
    ensures
        r@ == "https://api.telegram.org/bot"@ + auth_token@ + "/"@ + method_name@,
{
    let mut r = String::from_str("https://api.telegram.org/bot");
    r.append(auth_token);
    r.append("/");
    r.append(method_name);
    r
}

} // verus!
