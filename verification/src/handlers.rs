//! Method handlers.
//!
//! Each handler is the decision core of one protocol method. The
//! unverified rim gathers the UI host's state into plain snapshot
//! values, calls the handler, performs whatever host action the handler
//! asks for, and hands the outcome back; every response constructed
//! here reflects the request's correlation id.

use vstd::prelude::*;

use crate::logbuf::{push_evict, LogBuffer};
use crate::protocol::{
    error_response, no_active_window_response, ok_response, AppState, ClickParams, KeyParams,
    KeyResult, Payload, Response, ScreenshotResult, ActionResult, UiTreeResult, WindowInfo,
    WindowSummary, build_chord, chord_spec,
};
use crate::text::{is_suffix_of, str_eq, suffix_of};
use crate::tree::{
    build_element_tree, full_id_spec, make_full_id, make_seed, node_matches_rec, tree_built_for,
    InsRecord, UiNode,
};

verus! {

/// A window as the UI host reports it at request time; bounds stay an
/// opaque host value.
pub struct WindowSnap {
    pub id: String,
    pub title: String,
    pub bounds: serde_json::Value,
}

/// A window together with its flat inspector records and its pre-packed
/// host properties, for the tree-building methods.
pub struct WindowInspect {
    pub id: String,
    pub window_payload: serde_json::Value,
    pub records: Vec<InsRecord>,
}

/// Whether `active` names the window with id `wid`.
pub open spec fn active_matches(active: Option<String>, wid: Seq<char>) -> bool {
    match active {
        Some(a) => a@ == wid,
        None => false,
    }
}

/// Lists all live windows, annotating which one is active. No side
/// effects.
pub fn windows_response(id: &String, windows: Vec<WindowSnap>, active_id: &Option<String>) -> (r:
    Response)
    ensures
        r.id@ == id@,
        r.result is Ok,
        r.result->Ok_0 is Windows,
        ({
            let ws = r.result->Ok_0->Windows_0@;
            &&& ws.len() == windows@.len()
            &&& forall|k: int|
                0 <= k < ws.len() ==> {
                    &&& (#[trigger] ws[k]).id == windows@[k].id
                    &&& ws[k].title == windows@[k].title
                    &&& ws[k].bounds == windows@[k].bounds
                    &&& ws[k].display_id is None
                    &&& ws[k].is_active == active_matches(*active_id, windows@[k].id@)
                }
        }),
{
    let ghost all = windows@;
    let mut infos: Vec<WindowInfo> = Vec::new();
    let mut input = windows;
    while input.len() > 0
        invariant
            infos@.len() <= all.len(),
            input@ == all.skip(infos@.len() as int),
            forall|k: int|
                0 <= k < infos@.len() ==> {
                    &&& (#[trigger] infos@[k]).id == all[k].id
                    &&& infos@[k].title == all[k].title
                    &&& infos@[k].bounds == all[k].bounds
                    &&& infos@[k].display_id is None
                    &&& infos@[k].is_active == active_matches(*active_id, all[k].id@)
                },
        decreases input@.len(),
    {
        let ghost k = infos@.len() as int;
        let w = input.remove(0);
        proof {
            assert(all.skip(k).remove(0) =~= all.skip(k + 1));
            assert(w == all[k]);
        }
        let is_active = match active_id {
            Some(a) => str_eq(a.as_str(), w.id.as_str()),
            None => false,
        };
        let WindowSnap { id: wid, title, bounds } = w;
        infos.push(WindowInfo { id: wid, title, bounds, is_active, display_id: None });
    }
    ok_response(id, Payload::Windows(infos))
}

/// Returns window count, active window id, and per-window summaries.
/// No side effects.
pub fn app_state_response(
    id: &String,
    windows: Vec<WindowSnap>,
    active_id: Option<String>,
) -> (r: Response)
    ensures
        r.id@ == id@,
        r.result is Ok,
        r.result->Ok_0 is AppState,
        ({
            let st = r.result->Ok_0->AppState_0;
            &&& st.window_count == windows@.len()
            &&& st.active_window == active_id
            &&& st.windows@.len() == windows@.len()
            &&& forall|k: int|
                0 <= k < st.windows@.len() ==> {
                    &&& (#[trigger] st.windows@[k]).id == windows@[k].id
                    &&& st.windows@[k].title == windows@[k].title
                    &&& st.windows@[k].bounds == windows@[k].bounds
                }
        }),
{
    let ghost all = windows@;
    let window_count = windows.len();
    let mut sums: Vec<WindowSummary> = Vec::new();
    let mut input = windows;
    while input.len() > 0
        invariant
            sums@.len() <= all.len(),
            input@ == all.skip(sums@.len() as int),
            forall|k: int|
                0 <= k < sums@.len() ==> {
                    &&& (#[trigger] sums@[k]).id == all[k].id
                    &&& sums@[k].title == all[k].title
                    &&& sums@[k].bounds == all[k].bounds
                },
        decreases input@.len(),
    {
        let ghost k = sums@.len() as int;
        let w = input.remove(0);
        proof {
            assert(all.skip(k).remove(0) =~= all.skip(k + 1));
            assert(w == all[k]);
        }
        let WindowSnap { id: wid, title, bounds } = w;
        sums.push(WindowSummary { id: wid, title, bounds });
    }
    ok_response(
        id,
        Payload::AppState(AppState { window_count, active_window: active_id, windows: sums }),
    )
}

/// Returns a copy of the current log buffer contents, oldest first.
/// No side effects, no mutation.
pub fn logs_response(id: &String, log: &LogBuffer) -> (r: Response)
    ensures
        r.id@ == id@,
        r.result is Ok,
        r.result->Ok_0 is Logs,
        r.result->Ok_0->Logs_0@.map_values(|s: String| s@) == log@,
{
    ok_response(id, Payload::Logs(log.snapshot()))
}

/// Decides a click request up to the host dispatch: a parameter error
/// or a missing active window is rejected at once; otherwise the rim is
/// told to dispatch a click with the parsed button.
pub fn click_begin(
    id: &String,
    parsed: Result<ClickParams, String>,
    has_active_window: bool,
) -> (r: Result<ClickParams, Response>)
    ensures
        parsed is Err ==> r is Err && ({
            let e = r->Err_0;
            &&& e.id@ == id@
            &&& e.result is Err
            &&& e.result->Err_0 == parsed->Err_0
        }),
        parsed is Ok && !has_active_window ==> r is Err && ({
            let e = r->Err_0;
            &&& e.id@ == id@
            &&& e.result is Err
            &&& e.result->Err_0@ == "No active window"@
        }),
        parsed is Ok && has_active_window ==> r is Ok && r->Ok_0 == parsed->Ok_0,
{
    match parsed {
        Err(e) => Err(error_response(id, e)),
        Ok(p) => {
            if has_active_window {
                Ok(p)
            } else {
                Err(no_active_window_response(id))
            }
        },
    }
}

/// The log line a successful click leaves behind.
pub open spec fn click_log_line(coords: Seq<char>) -> Seq<char> {
    "Click at "@ + coords
}

/// Finishes a click the host dispatched: logs the action and reports
/// success. Exactly one log entry is pushed.
pub fn click_finish(id: &String, coords: &String, log: &mut LogBuffer) -> (r: Response)
    requires
        old(log).wf(),
    ensures
        final(log).wf(),
        final(log).capacity_spec() == old(log).capacity_spec(),
        final(log)@ == push_evict(old(log)@, click_log_line(coords@), old(log).capacity_spec()),
        r.id@ == id@,
        r.result is Ok,
        r.result->Ok_0 is ClickDone,
{
    let mut line = String::from_str("Click at ");
    line.append(coords.as_str());
    log.log(line);
    ok_response(id, Payload::ClickDone)
}

/// Decides a key-send request up to the chord dispatch: a parameter
/// error is rejected at once; otherwise the canonical chord string is
/// handed to the rim for the host to parse and dispatch.
pub fn send_key_begin(id: &String, parsed: Result<KeyParams, String>) -> (r: Result<
    String,
    Response,
>)
    ensures
        parsed is Err ==> r is Err && ({
            let e = r->Err_0;
            &&& e.id@ == id@
            &&& e.result is Err
            &&& e.result->Err_0 == parsed->Err_0
        }),
        parsed is Ok ==> r is Ok && r->Ok_0@ == chord_spec(
            parsed->Ok_0.modifiers,
            parsed->Ok_0.key@,
        ),
{
    match parsed {
        Err(e) => Err(error_response(id, e)),
        Ok(p) => Ok(build_chord(&p)),
    }
}

/// The textual form of a boolean in a log line.
pub open spec fn bool_str(b: bool) -> Seq<char> {
    if b {
        "true"@
    } else {
        "false"@
    }
}

/// The log line a dispatched key chord leaves behind.
pub open spec fn key_log_line(chord: Seq<char>, dispatched: bool) -> Seq<char> {
    "Key '"@ + chord + "' dispatched: "@ + bool_str(dispatched)
}

/// Finishes a key-send the host dispatched: logs the chord and whether
/// the host handled it, and reports both. Exactly one log entry.
pub fn send_key_finish(
    id: &String,
    chord: &String,
    dispatched: bool,
    log: &mut LogBuffer,
) -> (r: Response)
    requires
        old(log).wf(),
    ensures
        final(log).wf(),
        final(log).capacity_spec() == old(log).capacity_spec(),
        final(log)@ == push_evict(
            old(log)@,
            key_log_line(chord@, dispatched),
            old(log).capacity_spec(),
        ),
        r.id@ == id@,
        r.result is Ok,
        r.result->Ok_0 is KeyDone,
        r.result->Ok_0->KeyDone_0.dispatched == dispatched,
{
    let mut line = String::from_str("Key '");
    line.append(chord.as_str());
    line.append("' dispatched: ");
    if dispatched {
        line.append("true");
    } else {
        line.append("false");
    }
    proof {
        assert(line@ =~= key_log_line(chord@, dispatched));
    }
    log.log(line);
    ok_response(id, Payload::KeyDone(KeyResult { dispatched }))
}

/// Screenshots are a stable stub: zero dimensions, empty image data,
/// and a non-empty explanation, whatever the parameters were.
pub fn screenshot_response(id: &String) -> (r: Response)
    ensures
        r.id@ == id@,
        r.result is Ok,
        r.result->Ok_0 is Screenshot,
        ({
            let s = r.result->Ok_0->Screenshot_0;
            &&& s.error@ == "Screenshots are not yet supported (requires test-support feature)"@
            &&& s.error@.len() > 0
            &&& s.png_base64@ == Seq::<char>::empty()
            &&& s.width == 0
            &&& s.height == 0
            &&& s.highlighted_elements@.len() == 0
        }),
{
    proof {
        reveal_strlit("Screenshots are not yet supported (requires test-support feature)");
    }
    ok_response(
        id,
        Payload::Screenshot(
            ScreenshotResult {
                error: String::from_str(
                    "Screenshots are not yet supported (requires test-support feature)",
                ),
                png_base64: String::new(),
                width: 0,
                height: 0,
                highlighted_elements: Vec::new(),
            },
        ),
    )
}

/// The log line an action-execution request leaves behind.
pub open spec fn action_log_line(action: Seq<char>, args: Seq<char>) -> Seq<char> {
    "Execute action: "@ + action + " (args: "@ + args + ")"@
}

/// The stub's explanation of why the action was not dispatched.
pub open spec fn action_message(action: Seq<char>, args: Seq<char>) -> Seq<char> {
    "Dynamic action dispatch not yet supported. Action: '"@ + action + "', Args: "@ + args
}

/// Actions cannot be constructed from a name alone, so this handler
/// logs the request and reports `not_implemented`. Exactly one log
/// entry.
pub fn action_response(
    id: &String,
    action: &String,
    args_text: &String,
    log: &mut LogBuffer,
) -> (r: Response)
    requires
        old(log).wf(),
    ensures
        final(log).wf(),
        final(log).capacity_spec() == old(log).capacity_spec(),
        final(log)@ == push_evict(
            old(log)@,
            action_log_line(action@, args_text@),
            old(log).capacity_spec(),
        ),
        r.id@ == id@,
        r.result is Ok,
        r.result->Ok_0 is Action,
        r.result->Ok_0->Action_0.status@ == "not_implemented"@,
        r.result->Ok_0->Action_0.message@ == action_message(action@, args_text@),
{
    let mut line = String::from_str("Execute action: ");
    line.append(action.as_str());
    line.append(" (args: ");
    line.append(args_text.as_str());
    line.append(")");
    proof {
        assert(line@ =~= action_log_line(action@, args_text@));
    }
    log.log(line);
    let mut message = String::from_str("Dynamic action dispatch not yet supported. Action: '");
    message.append(action.as_str());
    message.append("', Args: ");
    message.append(args_text.as_str());
    proof {
        assert(message@ =~= action_message(action@, args_text@));
    }
    ok_response(
        id,
        Payload::Action(ActionResult { status: String::from_str("not_implemented"), message }),
    )
}

/// A window node of the inspection tree: the window's own id and
/// properties, with the rebuilt element forest as children.
pub open spec fn is_window_node(n: UiNode, w: WindowInspect) -> bool {
    &&& n.id == w.id
    &&& n.element_type@ == "Window"@
    &&& n.source_location is None
    &&& n.payload == w.window_payload
    &&& tree_built_for(n.children@, w.id@, w.records@)
}

/// Builds one window's node: its element forest rebuilt from the flat
/// records, under the window's own id.
pub fn make_window_node(w: WindowInspect) -> (n: UiNode)
    ensures
        is_window_node(n, w),
{
    let WindowInspect { id, window_payload, records } = w;
    let children = build_element_tree(id.as_str(), records);
    UiNode {
        id,
        element_type: String::from_str("Window"),
        source_location: None,
        payload: window_payload,
        children,
    }
}

/// Rebuilds the full element forest: one node per window under a
/// synthetic application root, plus window count and capture time.
pub fn inspect_tree_response(
    id: &String,
    windows: Vec<WindowInspect>,
    timestamp: u64,
    root_payload: serde_json::Value,
) -> (r: Response)
    ensures
        r.id@ == id@,
        r.result is Ok,
        r.result->Ok_0 is Tree,
        ({
            let t = r.result->Ok_0->Tree_0;
            &&& t.window_count == windows@.len()
            &&& t.timestamp == timestamp
            &&& t.root.id@ == "app"@
            &&& t.root.element_type@ == "Application"@
            &&& t.root.source_location is None
            &&& t.root.payload == root_payload
            &&& t.root.children@.len() == windows@.len()
            &&& forall|k: int|
                0 <= k < windows@.len() ==> is_window_node(
                    #[trigger] t.root.children@[k],
                    windows@[k],
                )
        }),
{
    let ghost all = windows@;
    let window_count = windows.len();
    let mut children: Vec<UiNode> = Vec::new();
    let mut input = windows;
    while input.len() > 0
        invariant
            children@.len() <= all.len(),
            input@ == all.skip(children@.len() as int),
            forall|k: int|
                0 <= k < children@.len() ==> is_window_node(#[trigger] children@[k], all[k]),
        decreases input@.len(),
    {
        let ghost k = children@.len() as int;
        let w = input.remove(0);
        proof {
            assert(all.skip(k).remove(0) =~= all.skip(k + 1));
            assert(w == all[k]);
        }
        children.push(make_window_node(w));
    }
    let root = UiNode {
        id: String::from_str("app"),
        element_type: String::from_str("Application"),
        source_location: None,
        payload: root_payload,
        children,
    };
    ok_response(id, Payload::Tree(UiTreeResult { root, window_count, timestamp }))
}

/// A record answers the query when its composite id matches exactly,
/// its global id matches exactly, or the query is a suffix of its
/// global id.
pub open spec fn rec_matches_query(wid: Seq<char>, r: InsRecord, q: Seq<char>) -> bool {
    ||| full_id_spec(wid, r.global_id@, r.instance_id as nat) == q
    ||| r.global_id@ == q
    ||| is_suffix_of(q, r.global_id@)
}

/// The first record index at or after `lo` answering the query.
pub open spec fn first_match_rec(
    wid: Seq<char>,
    recs: Seq<InsRecord>,
    q: Seq<char>,
    lo: int,
) -> Option<int>
    decreases recs.len() - lo,
{
    if lo < 0 || lo >= recs.len() {
        None
    } else if rec_matches_query(wid, recs[lo], q) {
        Some(lo)
    } else {
        first_match_rec(wid, recs, q, lo + 1)
    }
}

/// A window answers the query through its own id or one of its records.
pub open spec fn win_has_match(w: WindowInspect, q: Seq<char>) -> bool {
    ||| w.id@ == q
    ||| exists|k: int|
        0 <= k < w.records@.len() && rec_matches_query(w.id@, #[trigger] w.records@[k], q)
}

/// The first window index at or after `lo` answering the query.
pub open spec fn first_match_win(ws: Seq<WindowInspect>, q: Seq<char>, lo: int) -> Option<int>
    decreases ws.len() - lo,
{
    if lo < 0 || lo >= ws.len() {
        None
    } else if win_has_match(ws[lo], q) {
        Some(lo)
    } else {
        first_match_win(ws, q, lo + 1)
    }
}

/// The error message naming a query nothing matched.
pub open spec fn not_found_msg(q: Seq<char>) -> Seq<char> {
    "Element not found: "@ + q
}

/// Searches windows in enumeration order. A window whose id equals the
/// query short-circuits with its full inspected subtree; otherwise its
/// records are scanned in order for a composite-id, global-id or suffix
/// match, returned as a childless leaf. When nothing matches anywhere,
/// the error names the query.
pub fn find_element(id: &String, query: &String, windows: Vec<WindowInspect>) -> (r: Response)
    ensures
        r.id@ == id@,
        ({
            let ws = windows@;
            let q = query@;
            match first_match_win(ws, q, 0) {
                None => r.result is Err && r.result->Err_0@ == not_found_msg(q),
                Some(w0) => {
                    &&& r.result is Ok
                    &&& r.result->Ok_0 is Element
                    &&& ({
                        let node = r.result->Ok_0->Element_0;
                        if ws[w0].id@ == q {
                            is_window_node(node, ws[w0])
                        } else {
                            match first_match_rec(ws[w0].id@, ws[w0].records@, q, 0) {
                                Some(k0) => node_matches_rec(node, ws[w0].id@, ws[w0].records@[k0])
                                    && node.children@.len() == 0,
                                None => false,
                            }
                        }
                    })
                },
            }
        }),
{
    let ghost ws = windows@;
    let ghost q = query@;
    let mut input = windows;
    let ghost mut w: int = 0;
    while input.len() > 0
        invariant
            ws == windows@,
            q == query@,
            0 <= w <= ws.len(),
            input@ == ws.skip(w),
            first_match_win(ws, q, 0) == first_match_win(ws, q, w),
        decreases input@.len(),
    {
        let win = input.remove(0);
        proof {
            assert(ws.skip(w).remove(0) =~= ws.skip(w + 1));
            assert(win == ws[w]);
        }
        if str_eq(win.id.as_str(), query.as_str()) {
            proof {
                assert(win_has_match(ws[w], q));
                assert(first_match_win(ws, q, w) == Some(w));
            }
            let node = make_window_node(win);
            return ok_response(id, Payload::Element(node));
        }
        let WindowInspect { id: win_id, window_payload: _, records } = win;
        let ghost recs = ws[w].records@;
        let mut rin = records;
        let ghost mut k: int = 0;
        while rin.len() > 0
            invariant
                ws == windows@,
                q == query@,
                0 <= w < ws.len(),
                recs == ws[w].records@,
                win_id == ws[w].id,
                ws[w].id@ != q,
                first_match_win(ws, q, 0) == first_match_win(ws, q, w),
                0 <= k <= recs.len(),
                rin@ == recs.skip(k),
                first_match_rec(ws[w].id@, recs, q, 0) == first_match_rec(ws[w].id@, recs, q, k),
                forall|t: int| 0 <= t < k ==> !rec_matches_query(ws[w].id@, #[trigger] recs[t], q),
            decreases rin@.len(),
        {
            let rec = rin.remove(0);
            proof {
                assert(recs.skip(k).remove(0) =~= recs.skip(k + 1));
                assert(rec == recs[k]);
            }
            let full = make_full_id(win_id.as_str(), &rec);
            let hit = str_eq(full.as_str(), query.as_str()) || str_eq(
                rec.global_id.as_str(),
                query.as_str(),
            ) || suffix_of(query.as_str(), rec.global_id.as_str());
            if hit {
                proof {
                    assert(rec_matches_query(ws[w].id@, recs[k], q));
                    assert(first_match_rec(ws[w].id@, recs, q, k) == Some(k));
                    assert(win_has_match(ws[w], q));
                    assert(first_match_win(ws, q, w) == Some(w));
                }
                let node = make_seed(win_id.as_str(), rec);
                return ok_response(id, Payload::Element(node));
            }
            proof {
                assert(!rec_matches_query(ws[w].id@, recs[k], q));
                k = k + 1;
            }
        }
        proof {
            assert(k == recs.len());
            assert(first_match_rec(ws[w].id@, recs, q, k) is None);
            assert(!win_has_match(ws[w], q));
            assert(first_match_win(ws, q, w) == first_match_win(ws, q, w + 1));
            w = w + 1;
        }
    }
    proof {
        assert(w == ws.len());
        assert(first_match_win(ws, q, w) is None);
    }
    let mut msg = String::from_str("Element not found: ");
    msg.append(query.as_str());
    proof {
        assert(msg@ =~= not_found_msg(q));
    }
    error_response(id, msg)
}

} // verus!
