use mcp_core::handlers::{
    action_response, app_state_response, click_begin, click_finish, find_element,
    inspect_tree_response, logs_response, screenshot_response, send_key_begin, send_key_finish,
    windows_response, WindowInspect, WindowSnap,
};
use mcp_core::logbuf::LogBuffer;
use mcp_core::protocol::{ClickParams, KeyParams, Modifiers, MouseButton, Payload, Response};
use mcp_core::tree::InsRecord;

fn snap(id: &str, title: &str) -> WindowSnap {
    WindowSnap { id: id.to_string(), title: title.to_string(), bounds: serde_json::Value::Null }
}

fn rec(gid: &str, inst: u64) -> InsRecord {
    InsRecord {
        global_id: gid.to_string(),
        instance_id: inst,
        source_location: None,
        payload: serde_json::Value::Null,
    }
}

fn inspect_win(id: &str, gids: &[&str]) -> WindowInspect {
    WindowInspect {
        id: id.to_string(),
        window_payload: serde_json::Value::Null,
        records: gids.iter().map(|g| rec(g, 0)).collect(),
    }
}

fn payload(r: Response) -> Payload {
    r.result.unwrap()
}

#[test]
fn get_windows_marks_the_active_one() {
    let r = windows_response(
        &"i".to_string(),
        vec![snap("w1", "One"), snap("w2", "Two")],
        &Some("w2".to_string()),
    );
    assert_eq!(r.id, "i");
    match payload(r) {
        Payload::Windows(ws) => {
            assert_eq!(ws.len(), 2);
            assert_eq!(ws[0].id, "w1");
            assert_eq!(ws[0].title, "One");
            assert!(!ws[0].is_active);
            assert!(ws[0].display_id.is_none());
            assert_eq!(ws[1].id, "w2");
            assert!(ws[1].is_active);
        }
        _ => panic!("wrong payload"),
    }
}

#[test]
fn get_windows_without_active_window() {
    let r = windows_response(&"i".to_string(), vec![snap("w1", "One")], &None);
    match payload(r) {
        Payload::Windows(ws) => {
            assert!(!ws[0].is_active);
        }
        _ => panic!("wrong payload"),
    }
}

#[test]
fn app_state_counts_and_summarizes() {
    let r = app_state_response(
        &"i".to_string(),
        vec![snap("w1", "One"), snap("w2", "Two"), snap("w3", "Three")],
        Some("w1".to_string()),
    );
    match payload(r) {
        Payload::AppState(st) => {
            assert_eq!(st.window_count, 3);
            assert_eq!(st.active_window, Some("w1".to_string()));
            assert_eq!(st.windows.len(), 3);
            assert_eq!(st.windows[2].id, "w3");
            assert_eq!(st.windows[2].title, "Three");
        }
        _ => panic!("wrong payload"),
    }
}

#[test]
fn get_logs_returns_buffer_contents() {
    let mut log = LogBuffer::new(10);
    log.log("alpha".to_string());
    log.log("beta".to_string());
    let r = logs_response(&"i".to_string(), &log);
    match payload(r) {
        Payload::Logs(lines) => assert_eq!(lines, vec!["alpha", "beta"]),
        _ => panic!("wrong payload"),
    }
}

#[test]
fn click_rejects_bad_params() {
    let r = click_begin(&"i".to_string(), Err("bad params".to_string()), true);
    match r {
        Err(resp) => {
            assert_eq!(resp.id, "i");
            assert_eq!(resp.result.unwrap_err(), "bad params");
        }
        Ok(_) => panic!("expected rejection"),
    }
}

#[test]
fn click_requires_active_window() {
    let r = click_begin(
        &"i".to_string(),
        Ok(ClickParams { button: MouseButton::Left }),
        false,
    );
    match r {
        Err(resp) => {
            assert_eq!(resp.id, "i");
            assert_eq!(resp.result.unwrap_err(), "No active window");
        }
        Ok(_) => panic!("expected rejection"),
    }
}

#[test]
fn click_passes_button_through() {
    let r = click_begin(
        &"i".to_string(),
        Ok(ClickParams { button: MouseButton::Middle }),
        true,
    );
    match r {
        Ok(p) => assert!(matches!(p.button, MouseButton::Middle)),
        Err(_) => panic!("expected dispatch"),
    }
}

#[test]
fn click_logs_one_entry() {
    let mut log = LogBuffer::new(10);
    let r = click_finish(&"i".to_string(), &"(10, 20)".to_string(), &mut log);
    assert_eq!(r.id, "i");
    assert!(matches!(r.result, Ok(Payload::ClickDone)));
    assert_eq!(log.snapshot(), vec!["Click at (10, 20)"]);
}

#[test]
fn send_key_rejects_bad_params() {
    let r = send_key_begin(&"i".to_string(), Err("no key".to_string()));
    match r {
        Err(resp) => {
            assert_eq!(resp.id, "i");
            assert_eq!(resp.result.unwrap_err(), "no key");
        }
        Ok(_) => panic!("expected rejection"),
    }
}

#[test]
fn send_key_builds_the_chord() {
    let p = KeyParams {
        key: "s".to_string(),
        modifiers: Modifiers { ctrl: true, alt: false, shift: true, meta: false },
    };
    let r = send_key_begin(&"i".to_string(), Ok(p));
    assert_eq!(r.unwrap(), "ctrl-shift-s");
}

#[test]
fn send_key_finish_reports_and_logs() {
    let mut log = LogBuffer::new(10);
    let r = send_key_finish(&"i".to_string(), &"ctrl-s".to_string(), true, &mut log);
    assert_eq!(r.id, "i");
    match payload(r) {
        Payload::KeyDone(k) => assert!(k.dispatched),
        _ => panic!("wrong payload"),
    }
    assert_eq!(log.snapshot(), vec!["Key 'ctrl-s' dispatched: true"]);

    let mut log2 = LogBuffer::new(10);
    let r2 = send_key_finish(&"i".to_string(), &"cmd-q".to_string(), false, &mut log2);
    match payload(r2) {
        Payload::KeyDone(k) => assert!(!k.dispatched),
        _ => panic!("wrong payload"),
    }
    assert_eq!(log2.snapshot(), vec!["Key 'cmd-q' dispatched: false"]);
}

#[test]
fn screenshot_is_a_stable_stub() {
    let r = screenshot_response(&"i".to_string());
    assert_eq!(r.id, "i");
    match payload(r) {
        Payload::Screenshot(s) => {
            assert_eq!(s.width, 0);
            assert_eq!(s.height, 0);
            assert_eq!(s.png_base64, "");
            assert!(!s.error.is_empty());
            assert!(s.highlighted_elements.is_empty());
        }
        _ => panic!("wrong payload"),
    }
}

#[test]
fn execute_action_is_not_implemented() {
    let mut log = LogBuffer::new(10);
    let r = action_response(
        &"i".to_string(),
        &"save_all".to_string(),
        &"{\"force\":true}".to_string(),
        &mut log,
    );
    assert_eq!(r.id, "i");
    match payload(r) {
        Payload::Action(a) => {
            assert_eq!(a.status, "not_implemented");
            assert_eq!(
                a.message,
                "Dynamic action dispatch not yet supported. Action: 'save_all', Args: {\"force\":true}"
            );
        }
        _ => panic!("wrong payload"),
    }
    assert_eq!(log.snapshot(), vec!["Execute action: save_all (args: {\"force\":true})"]);
}

#[test]
fn inspect_tree_builds_the_forest() {
    let r = inspect_tree_response(
        &"i".to_string(),
        vec![inspect_win("w1", &["a", "a.b"]), inspect_win("w2", &[])],
        1234,
        serde_json::Value::Null,
    );
    assert_eq!(r.id, "i");
    match payload(r) {
        Payload::Tree(t) => {
            assert_eq!(t.window_count, 2);
            assert_eq!(t.timestamp, 1234);
            assert_eq!(t.root.id, "app");
            assert_eq!(t.root.element_type, "Application");
            assert_eq!(t.root.children.len(), 2);
            let w1 = &t.root.children[0];
            assert_eq!(w1.id, "w1");
            assert_eq!(w1.element_type, "Window");
            assert_eq!(w1.children.len(), 1);
            assert_eq!(w1.children[0].id, "w1/a[0]");
            assert_eq!(w1.children[0].children[0].id, "w1/a.b[0]");
            let w2 = &t.root.children[1];
            assert_eq!(w2.id, "w2");
            assert!(w2.children.is_empty());
        }
        _ => panic!("wrong payload"),
    }
}

#[test]
fn get_element_by_window_id_returns_populated_window() {
    let r = find_element(
        &"i".to_string(),
        &"w1".to_string(),
        vec![inspect_win("w1", &["a", "a.b"])],
    );
    assert_eq!(r.id, "i");
    match payload(r) {
        Payload::Element(n) => {
            assert_eq!(n.id, "w1");
            assert_eq!(n.element_type, "Window");
            assert_eq!(n.children.len(), 1);
            assert_eq!(n.children[0].id, "w1/a[0]");
        }
        _ => panic!("wrong payload"),
    }
}

#[test]
fn get_element_by_exact_global_id_returns_leaf() {
    let r = find_element(
        &"i".to_string(),
        &"a.b".to_string(),
        vec![inspect_win("w1", &["a", "a.b", "a.b.c"])],
    );
    match payload(r) {
        Payload::Element(n) => {
            assert_eq!(n.id, "w1/a.b[0]");
            assert!(n.children.is_empty());
        }
        _ => panic!("wrong payload"),
    }
}

#[test]
fn get_element_by_composite_id() {
    let r = find_element(
        &"i".to_string(),
        &"w1/a.b[0]".to_string(),
        vec![inspect_win("w1", &["a", "a.b"])],
    );
    match payload(r) {
        Payload::Element(n) => assert_eq!(n.id, "w1/a.b[0]"),
        _ => panic!("wrong payload"),
    }
}

#[test]
fn get_element_by_suffix_takes_first_record_in_host_order() {
    let r = find_element(
        &"i".to_string(),
        &"b".to_string(),
        vec![inspect_win("w1", &["x.b", "a.b"])],
    );
    match payload(r) {
        Payload::Element(n) => assert_eq!(n.id, "w1/x.b[0]"),
        _ => panic!("wrong payload"),
    }
}

#[test]
fn get_element_searches_windows_in_order() {
    let r = find_element(
        &"i".to_string(),
        &"a.b".to_string(),
        vec![inspect_win("w1", &["z"]), inspect_win("w2", &["a.b"])],
    );
    match payload(r) {
        Payload::Element(n) => assert_eq!(n.id, "w2/a.b[0]"),
        _ => panic!("wrong payload"),
    }
}

#[test]
fn get_element_not_found_names_the_query() {
    let r = find_element(
        &"i".to_string(),
        &"nothing.here".to_string(),
        vec![inspect_win("w1", &["a", "a.b"])],
    );
    assert_eq!(r.id, "i");
    assert_eq!(r.result.unwrap_err(), "Element not found: nothing.here");
}

#[test]
fn get_element_empty_query_is_a_suffix_of_everything() {
    let r = find_element(
        &"i".to_string(),
        &"".to_string(),
        vec![inspect_win("w1", &["a", "b"])],
    );
    match payload(r) {
        Payload::Element(n) => assert_eq!(n.id, "w1/a[0]"),
        _ => panic!("wrong payload"),
    }
}

#[test]
fn get_element_with_no_windows_is_not_found() {
    let r = find_element(&"i".to_string(), &"a".to_string(), Vec::new());
    assert_eq!(r.result.unwrap_err(), "Element not found: a");
}

#[test]
fn inspect_tree_with_no_windows() {
    let r = inspect_tree_response(&"i".to_string(), Vec::new(), 7, serde_json::Value::Null);
    match payload(r) {
        Payload::Tree(t) => {
            assert_eq!(t.window_count, 0);
            assert_eq!(t.timestamp, 7);
            assert!(t.root.children.is_empty());
        }
        _ => panic!("wrong payload"),
    }
}

#[test]
fn get_windows_with_no_windows() {
    let r = windows_response(&"i".to_string(), Vec::new(), &None);
    match payload(r) {
        Payload::Windows(ws) => assert!(ws.is_empty()),
        _ => panic!("wrong payload"),
    }
}
