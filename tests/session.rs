use three_good_sources::mcp::{
    classify_method, error_code, handle_envelope, request_envelope, tool_named, Envelope, Method,
    Reply, SessionState, Tool, ToolCallError, INVALID_PARAMS, INVALID_REQUEST, METHOD_NOT_FOUND,
    NOT_INITIALIZED, PARSE_ERROR,
};

fn request(method: &str, has_id: bool, params_ok: bool) -> Envelope {
    request_envelope("2.0", has_id, method, params_ok)
}

fn initialized() -> SessionState {
    let (state, reply) = handle_envelope(SessionState::Uninitialized, request("initialize", true, true));
    assert_eq!(reply, Reply::InitializeResult);
    state
}

#[test]
fn test_initialize_sets_initialized_flag() {
    let state = SessionState::Uninitialized;
    assert_eq!(state, SessionState::Uninitialized);
    let (next, _) = handle_envelope(state, request("initialize", true, true));
    assert_eq!(next, SessionState::Initialized);
}

#[test]
fn test_notification_returns_none() {
    let (_, reply) = handle_envelope(SessionState::Uninitialized, request("notifications/initialized", false, false));
    assert_eq!(reply, Reply::Nothing);
}

#[test]
fn handler_test_pre_init_tools_list_rejected() {
    let (state, reply) = handle_envelope(SessionState::Uninitialized, request("tools/list", true, false));
    assert_eq!(state, SessionState::Uninitialized);
    assert_eq!(error_code(reply), Some(-32002));
    assert_eq!(NOT_INITIALIZED, -32002);
}

#[test]
fn test_pre_init_tools_call_rejected() {
    let (_, reply) = handle_envelope(SessionState::Uninitialized, request("tools/call", true, false));
    assert_eq!(error_code(reply), Some(-32002));
}

#[test]
fn handler_test_batch_request_rejected() {
    let (_, reply) = handle_envelope(SessionState::Uninitialized, Envelope::Batch);
    assert_eq!(reply, Reply::BatchRejected);
    assert_eq!(error_code(reply), Some(-32600));
}

#[test]
fn handler_test_unknown_method_returns_error() {
    let state = initialized();
    let (_, reply) = handle_envelope(state, request("unknown/method", true, false));
    assert_eq!(error_code(reply), Some(-32601));
}

#[test]
fn test_invalid_json_returns_parse_error() {
    let (_, reply) = handle_envelope(SessionState::Uninitialized, Envelope::Unparsable);
    assert_eq!(error_code(reply), Some(-32700));
    assert_eq!(PARSE_ERROR, -32700);
}

#[test]
fn test_invalid_params_on_initialize() {
    let (state, reply) = handle_envelope(SessionState::Uninitialized, request("initialize", true, false));
    assert_eq!(error_code(reply), Some(-32602));
    assert_eq!(state, SessionState::Uninitialized);
    assert_eq!(INVALID_PARAMS, -32602);
}

#[test]
fn test_invalid_jsonrpc_version() {
    let env = request_envelope("1.0", true, "initialize", false);
    let (_, reply) = handle_envelope(SessionState::Uninitialized, env);
    assert_eq!(error_code(reply), Some(-32600));
    assert_eq!(INVALID_REQUEST, -32600);
}

#[test]
fn initialized_session_serves_tools() {
    let state = initialized();
    assert_eq!(handle_envelope(state, request("tools/list", true, false)), (state, Reply::ToolsList));
    assert_eq!(handle_envelope(state, request("tools/call", true, false)), (state, Reply::ToolsCall));
    assert_eq!(error_code(Reply::ToolsList), None);
    assert_eq!(METHOD_NOT_FOUND, -32601);
}

#[test]
fn notification_without_id_is_silent_even_before_initialization() {
    let (state, reply) = handle_envelope(SessionState::Uninitialized, request("tools/list", false, false));
    assert_eq!(state, SessionState::Uninitialized);
    assert_eq!(reply, Reply::Nothing);
}

#[test]
fn methods_are_classified_by_exact_name() {
    assert_eq!(classify_method("initialize"), Method::Initialize);
    assert_eq!(classify_method("notifications/initialized"), Method::InitializedNotification);
    assert_eq!(classify_method("tools/list"), Method::ToolsList);
    assert_eq!(classify_method("tools/call"), Method::ToolsCall);
    assert_eq!(classify_method("tools/List"), Method::Other);
    assert_eq!(classify_method(""), Method::Other);
}

#[test]
fn tools_are_found_by_name() {
    assert_eq!(tool_named("get_sources"), Ok(Tool::GetSources));
    assert_eq!(tool_named("list_categories"), Ok(Tool::ListCategories));
    assert_eq!(tool_named("get_provenance"), Ok(Tool::GetProvenance));
    assert_eq!(tool_named("get_endorsements"), Ok(Tool::GetEndorsements));
    assert_eq!(tool_named("unknown_tool"), Err(ToolCallError::UnknownTool));
}
