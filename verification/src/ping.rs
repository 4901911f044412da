//! The liveness request that every service answers.
use vstd::prelude::*;

verus! {

/// The answer to a ping: its payload, or `PONG` when it has none.
pub open spec fn ping_reply(payload: Option<Seq<char>>) -> Seq<char> {
    match payload {
        Some(p) => p,
        None => "PONG"@,
    }
}

/// The view of an optional text.
pub open spec fn opt_view(o: Option<String>) -> Option<Seq<char>> {
    match o {
        Some(s) => Some(s@),
        None => None,
    }
}

/// Answers a ping.
pub fn ping(payload: Option<String>) -> (r: String)
    ensures
        r@ == ping_reply(opt_view(payload)),
{
    match payload {
        Some(p) => p,
        None => "PONG".to_owned(),
    }
}

} // verus!
