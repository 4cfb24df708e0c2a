//! The store's key naming: each session's three keys, the per-namespace
//! registry sets, and the keys and name of the vector index.

use vstd::prelude::*;
use vstd::string::*;

verus! {

/// The key of a session's message list.
pub fn session_key(session_id: &String) -> (r: String)
    ensures
        r@ == "session:"@ + session_id@,
{
    let mut s = String::from_str("session:");
    s.append(session_id.as_str());
    s
}

/// The key of a session's running summary.
pub fn context_key(session_id: &String) -> (r: String)
    ensures
        r@ == "context:"@ + session_id@,
{
    let mut s = String::from_str("context:");
    s.append(session_id.as_str());
    s
}

/// The key of a session's token counter.
pub fn token_count_key(session_id: &String) -> (r: String)
    ensures
        r@ == "tokens:"@ + session_id@,
{
    let mut s = String::from_str("tokens:");
    s.append(session_id.as_str());
    s
}

/// The registry set of a namespace: the unscoped set for the default
/// namespace, a scoped one otherwise.
pub fn sessions_key(namespace: &Option<String>) -> (r: String)
    ensures
        namespace matches Some(ns) ==> r@ == "sessions:"@ + ns@,
        namespace is None ==> r@ == "sessions"@,
{
    match namespace {
        Some(ns) => {
            let mut s = String::from_str("sessions:");
            s.append(ns.as_str());
            s
        },
        None => String::from_str("sessions"),
    }
}

/// The key of one long-term record, under the index's key prefix.
pub fn long_term_key(record_id: &String) -> (r: String)
    ensures
        r@ == "motorhead:"@ + record_id@,
{
    let mut s = String::from_str("motorhead:");
    s.append(record_id.as_str());
    s
}

/// The vector index's name.
pub fn index_name() -> (r: &'static str)
    ensures
        r@ == "motorhead"@,
{
    "motorhead"
}

} // verus!
