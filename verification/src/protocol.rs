//! Request/response model of the line-delimited JSON protocol.
//!
//! A request carries an opaque correlation id, a method name and a
//! parameter value; every accepted request yields exactly one response
//! carrying the same id. The constructors here are the only way the
//! server forms responses, and each of them promises that the id of the
//! request is reflected verbatim — also on the timeout path.

use vstd::prelude::*;

use crate::text::str_eq;
use crate::tree::UiNode;

verus! {

/// One decoded request: correlation id, method name, raw parameters.
pub struct Request {
    pub id: String,
    pub method: String,
    pub params: serde_json::Value,
}

/// Modifier flags of a key chord.
pub struct Modifiers {
    pub ctrl: bool,
    pub alt: bool,
    pub shift: bool,
    pub meta: bool,
}

/// Parameters of a key-send request.
pub struct KeyParams {
    pub key: String,
    pub modifiers: Modifiers,
}

/// The mouse button of a click request.
pub enum MouseButton {
    Left,
    Right,
    Middle,
}

/// Parameters of a click request that the verified logic decides on;
/// the click position stays with the unverified rim, which forwards it
/// to the UI host unchanged.
pub struct ClickParams {
    pub button: MouseButton,
}

/// One live window, annotated with whether it is the active one.
#[derive(Debug)]
pub struct WindowInfo {
    pub id: String,
    pub title: String,
    pub bounds: serde_json::Value,
    pub is_active: bool,
    pub display_id: Option<u64>,
}

/// The compact per-window summary of the app-state snapshot.
#[derive(Debug)]
pub struct WindowSummary {
    pub id: String,
    pub title: String,
    pub bounds: serde_json::Value,
}

/// The app-state snapshot: window count, active window, summaries.
#[derive(Debug)]
pub struct AppState {
    pub window_count: usize,
    pub active_window: Option<String>,
    pub windows: Vec<WindowSummary>,
}

/// The stable screenshot stub: empty image data and an explanation.
#[derive(Debug)]
pub struct ScreenshotResult {
    pub error: String,
    pub png_base64: String,
    pub width: u64,
    pub height: u64,
    pub highlighted_elements: Vec<String>,
}

/// The stable action-execution stub.
#[derive(Debug)]
pub struct ActionResult {
    pub status: String,
    pub message: String,
}

/// Whether the UI host reported the dispatched key chord as handled.
#[derive(Debug)]
pub struct KeyResult {
    pub dispatched: bool,
}

/// The full element forest under a synthetic application root.
#[derive(Debug)]
pub struct UiTreeResult {
    pub root: UiNode,
    pub window_count: usize,
    pub timestamp: u64,
}

/// The successful payload of a response, one variant per method.
#[derive(Debug)]
pub enum Payload {
    Windows(Vec<WindowInfo>),
    AppState(AppState),
    Logs(Vec<String>),
    Tree(UiTreeResult),
    Element(UiNode),
    ClickDone,
    KeyDone(KeyResult),
    Screenshot(ScreenshotResult),
    Action(ActionResult),
}

/// One response: the request's id, and a payload or an error message.
#[derive(Debug)]
pub struct Response {
    pub id: String,
    pub result: Result<Payload, String>,
}

/// The supported methods, plus the catch-all for unknown names.
pub enum Method {
    GetWindows,
    ClickElement,
    SendKey,
    GetAppState,
    GetLogs,
    InspectUiTree,
    GetElement,
    TakeScreenshot,
    ExecuteAction,
    Unknown,
}

/// The fixed mapping from method name to method.
pub open spec fn method_spec(s: Seq<char>) -> Method {
    if s == "get_windows"@ {
        Method::GetWindows
    } else if s == "click_element"@ {
        Method::ClickElement
    } else if s == "send_key"@ {
        Method::SendKey
    } else if s == "get_app_state"@ {
        Method::GetAppState
    } else if s == "get_logs"@ {
        Method::GetLogs
    } else if s == "inspect_ui_tree"@ {
        Method::InspectUiTree
    } else if s == "get_element"@ {
        Method::GetElement
    } else if s == "take_screenshot"@ {
        Method::TakeScreenshot
    } else if s == "execute_action"@ {
        Method::ExecuteAction
    } else {
        Method::Unknown
    }
}

/// Looks a method name up in the fixed mapping; names are case-sensitive.
pub fn parse_method(name: &str) -> (m: Method)
    ensures
        m == method_spec(name@),
{
    if str_eq(name, "get_windows") {
        Method::GetWindows
    } else if str_eq(name, "click_element") {
        Method::ClickElement
    } else if str_eq(name, "send_key") {
        Method::SendKey
    } else if str_eq(name, "get_app_state") {
        Method::GetAppState
    } else if str_eq(name, "get_logs") {
        Method::GetLogs
    } else if str_eq(name, "inspect_ui_tree") {
        Method::InspectUiTree
    } else if str_eq(name, "get_element") {
        Method::GetElement
    } else if str_eq(name, "take_screenshot") {
        Method::TakeScreenshot
    } else if str_eq(name, "execute_action") {
        Method::ExecuteAction
    } else {
        Method::Unknown
    }
}

/// A successful response, reflecting the request's id.
pub fn ok_response(id: &String, payload: Payload) -> (r: Response)
    ensures
        r.id@ == id@,
        r.result is Ok,
        r.result->Ok_0 == payload,
{
    Response { id: id.clone(), result: Ok(payload) }
}

/// A failed response, reflecting the request's id and the given message.
pub fn error_response(id: &String, msg: String) -> (r: Response)
    ensures
        r.id@ == id@,
        r.result is Err,
        r.result->Err_0 == msg,
{
    Response { id: id.clone(), result: Err(msg) }
}

/// The error message for a method name outside the fixed mapping.
pub open spec fn unknown_method_msg(method: Seq<char>) -> Seq<char> {
    "Unknown method: "@ + method
}

/// The response to a request whose method name is not in the mapping.
pub fn unknown_method_response(id: &String, method: &String) -> (r: Response)
    ensures
        r.id@ == id@,
        r.result is Err,
        r.result->Err_0@ == unknown_method_msg(method@),
{
    let mut m = String::from_str("Unknown method: ");
    m.append(method.as_str());
    Response { id: id.clone(), result: Err(m) }
}

/// The response a connection synthesizes when no reply arrived within
/// the timeout. It still carries the original request's id: correlation
/// is externally observable and must survive the timeout path.
pub fn timeout_response(id: &String) -> (r: Response)
    ensures
        r.id@ == id@,
        r.result is Err,
        r.result->Err_0@ == "Request timeout"@,
{
    Response { id: id.clone(), result: Err(String::from_str("Request timeout")) }
}

/// The response to an input-injection request when no window is active.
pub fn no_active_window_response(id: &String) -> (r: Response)
    ensures
        r.id@ == id@,
        r.result is Err,
        r.result->Err_0@ == "No active window"@,
{
    Response { id: id.clone(), result: Err(String::from_str("No active window")) }
}

/// The canonical chord string of a key with modifiers: the fixed prefix
/// order is ctrl, alt, shift, meta.
pub open spec fn chord_spec(m: Modifiers, key: Seq<char>) -> Seq<char> {
    (if m.ctrl {
        "ctrl-"@
    } else {
        Seq::<char>::empty()
    }) + (if m.alt {
        "alt-"@
    } else {
        Seq::<char>::empty()
    }) + (if m.shift {
        "shift-"@
    } else {
        Seq::<char>::empty()
    }) + (if m.meta {
        "cmd-"@
    } else {
        Seq::<char>::empty()
    }) + key
}

/// Builds the canonical modifier-prefixed chord string for a key.
pub fn build_chord(p: &KeyParams) -> (r: String)
    ensures
        r@ == chord_spec(p.modifiers, p.key@),
{
    let mut s = String::new();
    if p.modifiers.ctrl {
        s.append("ctrl-");
    }
    if p.modifiers.alt {
        s.append("alt-");
    }
    if p.modifiers.shift {
        s.append("shift-");
    }
    if p.modifiers.meta {
        s.append("cmd-");
    }
    s.append(p.key.as_str());
    proof {
        assert(s@ =~= chord_spec(p.modifiers, p.key@));
    }
    s
}

} // verus!
