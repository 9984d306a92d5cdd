//! What a caller that reaches the gateway over the network may change.
//!
//! Nothing that arrives over the gateway may make a server reachable that was
//! not reachable already. Switching a server off stays allowed; only the
//! direction that grants is refused, with a message that says where the human
//! control is.

use vstd::prelude::*;
#[allow(unused_imports)]
use vstd::string::*;

verus! {

/// The refusal of a request to switch `jack` on.
pub open spec fn enable_refusal(jack: Seq<char>) -> Seq<char> {
    "Patchbay: agents may switch a server OFF but not ON, so '"@ + jack
        + "' was not enabled. Turning a server on is the user's decision — ask them to enable '"@ + jack
        + "' from the Patchbay tray icon (or its window), and it will appear for you without reconnecting."@
}

/// The refusal of a request to add `jack` already switched on.
pub open spec fn add_refusal(jack: Seq<char>) -> Seq<char> {
    "Patchbay: agents may not add a server that is already switched on. Re-send this with \"patched\": false and the definition for '"@
        + jack
        + "' will be saved switched off, ready for the user to enable from the tray icon (or its window)."@
}

/// Refuse a request to switch a jack on. Switching one off is always the
/// caller's to do.
pub fn check_enable(jack: &str, want_on: bool) -> (r: Result<(), String>)
    ensures
        r is Ok <==> !want_on,
        r matches Err(e) ==> e@ == enable_refusal(jack@),
{
    if !want_on {
        return Ok(());
    }
    let mut s = "Patchbay: agents may switch a server OFF but not ON, so '".to_owned();
    s.append(jack);
    s.append("' was not enabled. Turning a server on is the user's decision — ask them to enable '");
    s.append(jack);
    s.append("' from the Patchbay tray icon (or its window), and it will appear for you without reconnecting.");
    Err(s)
}

/// Refuse a request to add a jack that would start at once. Adding it switched
/// off is allowed: that reaches nothing on its own.
pub fn check_add(jack: &str, patched: bool) -> (r: Result<(), String>)
    ensures
        r is Ok <==> !patched,
        r matches Err(e) ==> e@ == add_refusal(jack@),
{
    if !patched {
        return Ok(());
    }
    let mut s =
        "Patchbay: agents may not add a server that is already switched on. Re-send this with \"patched\": false and the definition for '".to_owned();
    s.append(jack);
    s.append("' will be saved switched off, ready for the user to enable from the tray icon (or its window).");
    Err(s)
}

} // verus!
