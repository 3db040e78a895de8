use zsh_tool_exec::serve::protocol::{
    error_content, text_content, JsonRpcRequest, JsonRpcResponse,
};
use zsh_tool_exec::serve::tools::{tool_def, ParamKind, ToolParam};

#[test]
fn responses_carry_a_result_or_an_error() {
    let ok = JsonRpcResponse::success(Some("7".to_string()), "{}".to_string());
    assert_eq!(ok.jsonrpc, "2.0");
    assert_eq!(ok.id.as_deref(), Some("7"));
    assert_eq!(ok.result.as_deref(), Some("{}"));
    assert!(ok.error.is_none());
    let failed = JsonRpcResponse::error(None, -32601, "Method not found: x".to_string());
    assert_eq!(failed.jsonrpc, "2.0");
    assert_eq!(failed.id, None);
    assert_eq!(failed.result, None);
    let e = failed.error.unwrap();
    assert_eq!(e.code, -32601);
    assert_eq!(e.message, "Method not found: x");
    assert_eq!(e.data, None);
}

#[test]
fn a_request_without_id_is_a_notification() {
    let mut request = JsonRpcRequest {
        jsonrpc: "2.0".to_string(),
        id: None,
        method: "notifications/initialized".to_string(),
        params: None,
    };
    assert!(request.is_notification());
    request.id = Some("\"a\"".to_string());
    assert!(!request.is_notification());
}

#[test]
fn tool_answers_say_whether_the_tool_was_misused() {
    let fine = text_content("done");
    assert_eq!(fine.text, "done");
    assert!(!fine.is_error);
    let bad = error_content("Missing required parameter: task_id");
    assert_eq!(bad.text, "Missing required parameter: task_id");
    assert!(bad.is_error);
}

#[test]
fn tool_definition_keeps_what_it_is_given() {
    let params = vec![ToolParam {
        name: "n".to_string(),
        kind: ParamKind::Integer,
        description: "a number".to_string(),
    }];
    let tool = tool_def("count", "Counts.", params, vec!["n".to_string()]);
    assert_eq!(tool.name, "count");
    assert_eq!(tool.description, "Counts.");
    assert_eq!(tool.properties.len(), 1);
    assert_eq!(tool.properties[0].name, "n");
    assert_eq!(tool.required, vec!["n"]);
}
