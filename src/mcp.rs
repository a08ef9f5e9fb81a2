use vstd::prelude::*;
use crate::text::same_text;

verus! {

/// JSON-RPC code: the text is not a request.
pub const PARSE_ERROR: i32 = -32700;

/// JSON-RPC code: the request is not acceptable.
pub const INVALID_REQUEST: i32 = -32600;

/// JSON-RPC code: no such method or tool.
pub const METHOD_NOT_FOUND: i32 = -32601;

/// JSON-RPC code: the parameters do not fit the method.
pub const INVALID_PARAMS: i32 = -32602;

/// JSON-RPC code: the session has not been initialized.
pub const NOT_INITIALIZED: i32 = -32002;

/// Errors of the JSON-RPC layer.
#[derive(Debug, Clone)]
pub enum McpError {
    ParseError(String),
    SerializationError(String),
}

/// Why a tool call failed.
#[derive(Debug, Clone, Copy, PartialEq, Eq, Structural)]
pub enum ToolCallError {
    UnknownTool,
    InvalidParams,
}

/// Where a session stands.
#[derive(Debug, Clone, Copy, PartialEq, Eq, Structural)]
pub enum SessionState {
    Uninitialized,
    Initialized,
}

/// The methods that a request may name.
#[derive(Debug, Clone, Copy, PartialEq, Eq, Structural)]
pub enum Method {
    Initialize,
    InitializedNotification,
    ToolsList,
    ToolsCall,
    Other,
}

/// What one incoming message turned out to be.
#[derive(Debug, Clone, Copy, PartialEq, Eq, Structural)]
pub enum Envelope {
    /// Not JSON, or JSON that is not a request object.
    Unparsable,
    /// A JSON array: a batch of requests.
    Batch,
    /// A request object.
    Request {
        /// Its `jsonrpc` member is "2.0".
        version_ok: bool,
        /// It carries an `id` (else it is a notification).
        has_id: bool,
        /// The method it names.
        method: Method,
        /// Its `params` read as the parameters of `initialize`.
        initialize_params_ok: bool,
    },
}

/// What to answer to a message.
#[derive(Debug, Clone, Copy, PartialEq, Eq, Structural)]
pub enum Reply {
    /// No answer (a notification).
    Nothing,
    /// Parse error.
    ParseError,
    /// Invalid request: batches are not supported.
    BatchRejected,
    /// Invalid request.
    InvalidRequest,
    /// The session must be initialized first.
    NotInitialized,
    /// The parameters do not fit.
    InvalidParams,
    /// Unknown method.
    MethodNotFound,
    /// The answer to a successful `initialize`.
    InitializeResult,
    /// The list of tools.
    ToolsList,
    /// The result of a tool call.
    ToolsCall,
}

/// The method that the name `m` denotes.
pub open spec fn method_of(m: Seq<char>) -> Method {
    if m == "initialize"@ {
        Method::Initialize
    } else if m == "notifications/initialized"@ {
        Method::InitializedNotification
    } else if m == "tools/list"@ {
        Method::ToolsList
    } else if m == "tools/call"@ {
        Method::ToolsCall
    } else {
        Method::Other
    }
}

/// The session's next state and its answer to one message, checked in order:
/// parse, batch, version, notification, initialization, method.
pub open spec fn step(state: SessionState, env: Envelope) -> (SessionState, Reply) {
    match env {
        Envelope::Unparsable => (state, Reply::ParseError),
        Envelope::Batch => (state, Reply::BatchRejected),
        Envelope::Request { version_ok, has_id, method, initialize_params_ok } => {
            if !version_ok {
                (state, Reply::InvalidRequest)
            } else if !has_id {
                (state, Reply::Nothing)
            } else if method != Method::Initialize && method != Method::InitializedNotification
                && state == SessionState::Uninitialized {
                (state, Reply::NotInitialized)
            } else {
                match method {
                    Method::Initialize => {
                        if initialize_params_ok {
                            (SessionState::Initialized, Reply::InitializeResult)
                        } else {
                            (state, Reply::InvalidParams)
                        }
                    },
                    Method::InitializedNotification => (state, Reply::Nothing),
                    Method::ToolsList => (state, Reply::ToolsList),
                    Method::ToolsCall => (state, Reply::ToolsCall),
                    Method::Other => (state, Reply::MethodNotFound),
                }
            }
        },
    }
}

/// The method that a request names.
pub fn classify_method(name: &str) -> (r: Method)
    ensures
        r == method_of(name@),
{
    if same_text(name, "initialize") {
        Method::Initialize
    } else if same_text(name, "notifications/initialized") {
        Method::InitializedNotification
    } else if same_text(name, "tools/list") {
        Method::ToolsList
    } else if same_text(name, "tools/call") {
        Method::ToolsCall
    } else {
        Method::Other
    }
}

/// The reading of a request object: its version, whether it has an id, its
/// method, and whether its parameters fit `initialize`.
pub fn request_envelope(
    jsonrpc: &str,
    has_id: bool,
    method: &str,
    initialize_params_ok: bool,
) -> (r: Envelope)
    ensures
        r == (Envelope::Request {
            version_ok: jsonrpc@ == "2.0"@,
            has_id,
            method: method_of(method@),
            initialize_params_ok,
        }),
{
    Envelope::Request {
        version_ok: same_text(jsonrpc, "2.0"),
        has_id,
        method: classify_method(method),
        initialize_params_ok,
    }
}

/// The session's next state and its answer to one message.
pub fn handle_envelope(state: SessionState, env: Envelope) -> (r: (SessionState, Reply))
    ensures
        r == step(state, env),
{
    match env {
        Envelope::Unparsable => (state, Reply::ParseError),
        Envelope::Batch => (state, Reply::BatchRejected),
        Envelope::Request { version_ok, has_id, method, initialize_params_ok } => {
            if !version_ok {
                return (state, Reply::InvalidRequest);
            }
            if !has_id {
                return (state, Reply::Nothing);
            }
            let gated = match method {
                Method::Initialize => false,
                Method::InitializedNotification => false,
                _ => true,
            };
            if gated && state == SessionState::Uninitialized {
                return (state, Reply::NotInitialized);
            }
            match method {
                Method::Initialize => {
                    if initialize_params_ok {
                        (SessionState::Initialized, Reply::InitializeResult)
                    } else {
                        (state, Reply::InvalidParams)
                    }
                },
                Method::InitializedNotification => (state, Reply::Nothing),
                Method::ToolsList => (state, Reply::ToolsList),
                Method::ToolsCall => (state, Reply::ToolsCall),
                Method::Other => (state, Reply::MethodNotFound),
            }
        },
    }
}

/// Once initialized, a session stays initialized whatever arrives.
pub proof fn lemma_initialization_is_kept(env: Envelope)
    ensures
        step(SessionState::Initialized, env).0 == SessionState::Initialized,
{
}

/// Only a successful `initialize` request changes the state, and it leaves
/// the session initialized; no other method gets past an uninitialized
/// session except as a notification.
pub proof fn lemma_only_initialize_opens_the_session(state: SessionState, env: Envelope)
    ensures
        step(state, env).0 != state ==> (env == Envelope::Request {
            version_ok: true,
            has_id: true,
            method: Method::Initialize,
            initialize_params_ok: true,
        }),
        step(state, env).0 != state ==> step(state, env).0 == SessionState::Initialized,
        state == SessionState::Uninitialized ==> step(state, env).1 != Reply::ToolsList
            && step(state, env).1 != Reply::ToolsCall && step(state, env).1 != Reply::MethodNotFound,
{
}

/// The JSON-RPC error code of a reply that is an error.
pub open spec fn error_code_of(reply: Reply) -> Option<i32> {
    match reply {
        Reply::ParseError => Some(PARSE_ERROR),
        Reply::BatchRejected => Some(INVALID_REQUEST),
        Reply::InvalidRequest => Some(INVALID_REQUEST),
        Reply::NotInitialized => Some(NOT_INITIALIZED),
        Reply::InvalidParams => Some(INVALID_PARAMS),
        Reply::MethodNotFound => Some(METHOD_NOT_FOUND),
        _ => None,
    }
}

/// The JSON-RPC error code of a reply, if it is an error.
pub fn error_code(reply: Reply) -> (r: Option<i32>)
    ensures
        r == error_code_of(reply),
{
    match reply {
        Reply::ParseError => Some(PARSE_ERROR),
        Reply::BatchRejected => Some(INVALID_REQUEST),
        Reply::InvalidRequest => Some(INVALID_REQUEST),
        Reply::NotInitialized => Some(NOT_INITIALIZED),
        Reply::InvalidParams => Some(INVALID_PARAMS),
        Reply::MethodNotFound => Some(METHOD_NOT_FOUND),
        _ => None,
    }
}

/// The tools that the server offers.
#[derive(Debug, Clone, Copy, PartialEq, Eq, Structural)]
pub enum Tool {
    GetSources,
    ListCategories,
    GetProvenance,
    GetEndorsements,
}

/// The tool that the name `n` denotes, if any.
pub open spec fn tool_of(n: Seq<char>) -> Option<Tool> {
    if n == "get_sources"@ {
        Some(Tool::GetSources)
    } else if n == "list_categories"@ {
        Some(Tool::ListCategories)
    } else if n == "get_provenance"@ {
        Some(Tool::GetProvenance)
    } else if n == "get_endorsements"@ {
        Some(Tool::GetEndorsements)
    } else {
        None
    }
}

/// The tool that a call names; `UnknownTool` for any other name.
pub fn tool_named(name: &str) -> (r: Result<Tool, ToolCallError>)
    ensures
        tool_of(name@) matches Some(t) ==> r == Ok::<Tool, ToolCallError>(t),
        tool_of(name@) is None ==> r == Err::<Tool, ToolCallError>(ToolCallError::UnknownTool),
{
    if same_text(name, "get_sources") {
        Ok(Tool::GetSources)
    } else if same_text(name, "list_categories") {
        Ok(Tool::ListCategories)
    } else if same_text(name, "get_provenance") {
        Ok(Tool::GetProvenance)
    } else if same_text(name, "get_endorsements") {
        Ok(Tool::GetEndorsements)
    } else {
        Err(ToolCallError::UnknownTool)
    }
}

} // verus!
