//! The questions that the user is asked, and what their answers mean.

use vstd::prelude::*;
#[allow(unused_imports)]
use vstd::string::*;

verus! {

/// What came of asking the user.
#[derive(Clone, Copy, Debug, PartialEq, Eq, Structural)]
pub enum DialogAnswer {
    Yes,
    /// No, or the question was dismissed.
    No,
    /// There is no way to ask here.
    Unavailable,
}

/// The question about a client that connects for the first time.
pub fn approval_prompt(identity: &str) -> (r: String)
    ensures
        r@ == "'"@ + identity@
            + "' wants to connect to Patchbay for the first time.\n\nAllow this AI agent to access your configured MCP servers?"@,
{
    let mut s = "'".to_owned();
    s.append(identity);
    s.append(
        "' wants to connect to Patchbay for the first time.\n\nAllow this AI agent to access your configured MCP servers?",
    );
    s
}

/// Whether a client is allowed. Where nobody can be asked it is, so that the
/// application still works.
pub fn approval_granted(answer: DialogAnswer) -> (r: bool)
    ensures
        r == (answer is Yes || answer is Unavailable),
{
    match answer {
        DialogAnswer::Yes | DialogAnswer::Unavailable => true,
        DialogAnswer::No => false,
    }
}

/// The question before a client is forgotten.
pub fn delete_confirm_prompt(identity: &str) -> (r: String)
    ensures
        r@ == "Are you sure you want to permanently delete '"@ + identity@
            + "' from Patchbay?\n\nThis removes it from the known agents list and any Custom permissions it had. If it connects again, it will be treated as a new agent."@,
{
    let mut s = "Are you sure you want to permanently delete '".to_owned();
    s.append(identity);
    s.append(
        "' from Patchbay?\n\nThis removes it from the known agents list and any Custom permissions it had. If it connects again, it will be treated as a new agent.",
    );
    s
}

/// Whether a client is to be forgotten: only on an explicit yes, and never where
/// nobody can be asked.
pub fn deletion_confirmed(answer: DialogAnswer) -> (r: bool)
    ensures
        r == (answer is Yes),
{
    match answer {
        DialogAnswer::Yes => true,
        DialogAnswer::No | DialogAnswer::Unavailable => false,
    }
}

} // verus!
