//! Tool outcomes as the Gemma dialog template renders them, and the notes
//! listing its optimizer shows.
use vstd::prelude::*;
use crate::text::{chars_to_string, extend_chars, join, join_chars, str_chars};
use crate::toolcall::{FromKeyAndResult, ToolNotFound};

verus! {

/// A tool's outcome, serialized as `{"success": ..}` or `{"failure": ..}`.
#[derive(Debug, Clone, Copy, PartialEq, Eq)]
pub enum ToolResult<'s> {
    Success(&'s str),
    Failure(&'s str),
}

impl<'s> ToolResult<'s> {
    /// The key the outcome is serialized under.
    pub fn key(&self) -> (k: &'static str)
        ensures
            k@ == (match self {
                ToolResult::Success(_) => "success"@,
                ToolResult::Failure(_) => "failure"@,
            }),
    {
        match self {
            ToolResult::Success(_) => "success",
            ToolResult::Failure(_) => "failure",
        }
    }

    /// The outcome's text.
    pub fn text(&self) -> (t: &'s str)
        ensures
            t@ == (match self {
                ToolResult::Success(s) => s@,
                ToolResult::Failure(s) => s@,
            }),
    {
        match self {
            ToolResult::Success(s) => s,
            ToolResult::Failure(s) => s,
        }
    }
}

/// What a tool answered, as the Gemma dialog carries it.
#[derive(Debug, PartialEq, Eq)]
pub enum ToolResponseBody<R> {
    /// No such tool; rendered as `{"failure": "not found"}`.
    NotFound,
    /// The value the tool's handler returned.
    Value(R),
}

/// A tool's response in the Gemma dialog: the tool's name and its answer.
#[derive(Debug, PartialEq, Eq)]
pub struct ToolResponse<R> {
    pub name: String,
    pub response: ToolResponseBody<R>,
}

impl<R> ToolNotFound<String> for ToolResponse<R> {
    open spec fn spec_not_found(tool: String) -> Self {
        ToolResponse { name: tool, response: ToolResponseBody::NotFound }
    }

    /// The response for a tool that does not exist.
    fn not_found(tool: String) -> (r: Self) {
        ToolResponse { name: tool, response: ToolResponseBody::NotFound }
    }
}

impl<R> FromKeyAndResult<String, R> for ToolResponse<R> {
    open spec fn spec_from(key: String, res: R) -> Self {
        ToolResponse { name: key, response: ToolResponseBody::Value(res) }
    }

    /// The response carrying what the tool's handler returned.
    fn from(key: String, res: R) -> (r: Self) {
        ToolResponse { name: key, response: ToolResponseBody::Value(res) }
    }
}

/// Why a tool of the Gemma optimizer could not answer at all.
#[derive(Debug)]
pub enum ToolHandlerError {
    ChannelClosed,
    ClarificationRequest(String),
}

/// The notes as the Gemma optimizer shows them: "[a, b, ..]".
pub fn criteria_list(criteria: &Vec<String>) -> (s: String)
    ensures
        s@ == seq!['['] + join(criteria@.map_values(|c: String| c@), seq![',', ' ']) + seq![']'],
{
    let pieces = crate::optimize::strings_to_chars(criteria);
    let mut sep: Vec<char> = Vec::new();
    sep.push(',');
    sep.push(' ');
    let body = join_chars(&pieces, &sep);
    let mut v: Vec<char> = Vec::new();
    v.push('[');
    extend_chars(&mut v, &body);
    v.push(']');
    proof {
        assert(pieces@.map_values(|c: Vec<char>| c@) =~= criteria@.map_values(|c: String| c@));
        assert(sep@ =~= seq![',', ' ']);
        assert(v@ =~= seq!['['] + join(criteria@.map_values(|c: String| c@), seq![',', ' ']) + seq![']']);
    }
    chars_to_string(&v)
}

} // verus!
