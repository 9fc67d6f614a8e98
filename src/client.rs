use vstd::prelude::*;

verus! {

/// The request timeout a monitor's client gets. `client_timeout` is `Some`
/// when client settings are given, holding the timeout they set (if any);
/// without client settings the polling interval serves as the timeout, and
/// with neither there is none.
pub fn request_timeout<T>(client_timeout: Option<Option<T>>, interval: Option<T>) -> (r: Option<T>)
    ensures
        r == match client_timeout {
            Some(t) => t,
            None => interval,
        },
{
    match client_timeout {
        Some(t) => t,
        None => interval,
    }
}

} // verus!
