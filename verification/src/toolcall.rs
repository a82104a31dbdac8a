//! Answering a tool call: the tool's own answer when a handler for it ran,
//! a "not found" answer when there is none, and the handler's failure as
//! the failure of the call.
use vstd::prelude::*;

verus! {

/// A call of the tool named `tool` with arguments `args`.
pub struct ToolCall<Key, Args> {
    pub tool: Key,
    pub args: Args,
}

/// An answer that says the tool called does not exist.
pub trait ToolNotFound<Key>: Sized {
    /// The answer for a tool `tool` that does not exist.
    spec fn spec_not_found(tool: Key) -> Self;

    fn not_found(tool: Key) -> (r: Self)
        ensures
            r == Self::spec_not_found(tool),
    ;
}

/// An answer made of the tool called and what its handler returned.
pub trait FromKeyAndResult<Key, Res>: Sized {
    /// The answer for tool `key` whose handler returned `res`.
    spec fn spec_from(key: Key, res: Res) -> Self;

    fn from(key: Key, res: Res) -> (r: Self)
        ensures
            r == Self::spec_from(key, res),
    ;
}

/// The answer to a call of `tool`, given what its handler did: `None` when
/// no handler was found, otherwise the handler's outcome. A found handler's
/// failure is the call's failure; every other case is answered.
pub fn tool_call_response<Key, Res, E, Resp>(tool: Key, outcome: Option<Result<Res, E>>) -> (r: Result<Resp, E>)
    where
        Resp: ToolNotFound<Key> + FromKeyAndResult<Key, Res>,
    ensures
        outcome is None ==> r == Ok::<Resp, E>(Resp::spec_not_found(tool)),
        outcome matches Some(Ok(res)) ==> r == Ok::<Resp, E>(
            <Resp as FromKeyAndResult<Key, Res>>::spec_from(tool, res),
        ),
        outcome matches Some(Err(e)) ==> r == Err::<Resp, E>(e),
{
    match outcome {
        None => Ok(Resp::not_found(tool)),
        Some(Ok(res)) => Ok(<Resp as FromKeyAndResult<Key, Res>>::from(tool, res)),
        Some(Err(e)) => Err(e),
    }
}

} // verus!
