//! The line that describes one event in a claim's life.
use vstd::prelude::*;
use vstd::string::StringExecFns;

verus! {

/// `[<component>][claim:<claim id>][<event>] <message>`.
pub fn claim_event_line(component: &str, claim_id: &str, event: &str, message: &str) -> (r: String)
    ensures
        r@ == "["@ + component@ + "][claim:"@ + claim_id@ + "]["@ + event@ + "] "@ + message@,
{
    let mut line = String::from_str("[");
    line.append(component);
    line.append("][claim:");
    line.append(claim_id);
    line.append("][");
    line.append(event);
    line.append("] ");
    line.append(message);
    line
}

} // verus!
