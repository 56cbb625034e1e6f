use vstd::prelude::*;

use crate::address::ClientAddress;
use crate::store::{bumped, CounterStore};

verus! {

/// Counts one request to the monitored endpoint, before it is handed on.
///
/// The caller's address comes from the transport's connection data; where it
/// is missing, the request is not counted, and nothing fails.
pub fn record_request(store: &mut CounterStore, caller: Option<ClientAddress>)
    requires
        old(store).wf(),
    ensures
        final(store).wf(),
        final(store)@ == match caller {
            Some(a) => bumped(old(store)@, a),
            None => old(store)@,
        },
{
    match caller {
        Some(a) => store.increment(a),
        None => {},
    }
}

} // verus!
