//! The greeter: the reply it computes for a named caller, and the static
//! bearer-token check its transport interceptor applies.

use vstd::prelude::*;

use vstd::string::StringExecFns;

use crate::text::str_eq;

verus! {

/// The greeting service.
#[derive(Debug, Default)]
pub struct MyGreeter {}

/// The token value the interceptor accepts.
pub open spec fn expected_auth_token() -> Seq<char> {
    "Bearer some-secret-token"@
}

/// Accepts a request exactly when its authorization value is present and
/// equals the expected bearer token.
pub fn check_auth(authorization: Option<&str>) -> (r: bool)
    ensures
        r == match authorization {
            Some(t) => t@ == expected_auth_token(),
            None => false,
        },
{
    match authorization {
        Some(t) => str_eq(t, "Bearer some-secret-token"),
        None => false,
    }
}

impl MyGreeter {
    /// The reply for a caller with the given name.
    pub fn say_hello(&self, name: &str) -> (r: String)
        ensures
            r@ == "Hello "@ + name@ + "!"@,
    {
        "Hello ".to_owned().concat(name).concat("!")
    }
}

} // verus!
