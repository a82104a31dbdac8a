use lib_common::gemma4::{ToolResponse, ToolResponseBody};
use lib_common::toolcall::{tool_call_response, ToolCall};

#[test]
fn missing_tool_is_answered() {
    let r: Result<ToolResponse<u32>, String> = tool_call_response("nope".to_string(), None);
    assert_eq!(r, Ok(ToolResponse { name: "nope".to_string(), response: ToolResponseBody::NotFound }));
}

#[test]
fn tool_result_is_answered() {
    let call = ToolCall { tool: "count".to_string(), args: () };
    let r: Result<ToolResponse<u32>, String> = tool_call_response(call.tool, Some(Ok(7)));
    assert_eq!(r, Ok(ToolResponse { name: "count".to_string(), response: ToolResponseBody::Value(7) }));
}

#[test]
fn handler_failure_is_the_calls_failure() {
    let r: Result<ToolResponse<u32>, String> = tool_call_response("count".to_string(), Some(Err("closed".to_string())));
    assert_eq!(r, Err("closed".to_string()));
}
