use app_monitor::linux::{
    active_window_id, compositor_for, detect_compositor, eval_cut_in_bounds, eval_focus, eval_json_text,
    find_focused, idle_source, int_field, introspect_focus, is_focused, is_null_payload, kde_focus,
    name_from_comm, pick_window, property_text, resolve_process, str_field, sway_focus, sway_get_tree_request,
    sway_reply_length, u32_from_le, window_from, eval_window_focus,
    window_source, x11_fallback_needed, Compositor, EvalInfo, FieldValue, FocusedWindow, IdleSource,
    SwayNode, WindowInfo, WindowProps, WindowSource,
};

fn leaf(name: &str, app_id: &str, focused: bool) -> SwayNode {
    SwayNode {
        focused: Some(focused),
        pid: Some(0),
        app_id: Some(app_id.to_string()),
        name: Some(name.to_string()),
        nodes: Some(Vec::new()),
        floating_nodes: None,
    }
}

fn sample_tree() -> SwayNode {
    SwayNode {
        focused: Some(false),
        pid: None,
        app_id: None,
        name: Some("root".to_string()),
        nodes: Some(vec![leaf("Terminal", "foot", true), leaf("Browser", "firefox", false)]),
        floating_nodes: Some(Vec::new()),
    }
}

fn empty_tree() -> SwayNode {
    SwayNode {
        focused: Some(false),
        pid: None,
        app_id: None,
        name: Some("root".to_string()),
        nodes: Some(Vec::new()),
        floating_nodes: Some(Vec::new()),
    }
}

/// The name of the process behind a PID; PID 0 never names a process.
fn no_process(pid: Option<u32>) -> Option<String> {
    assert_eq!(pid, Some(0));
    None
}

const SAMPLE_TREE: &str = r#"{
    "name": "root",
    "focused": false,
    "nodes": [
        { "name": "Terminal", "app_id": "foot", "pid": 0, "focused": true, "nodes": [] },
        { "name": "Browser", "app_id": "firefox", "pid": 0, "focused": false, "nodes": [] }
    ],
    "floating_nodes": []
}"#;

const EMPTY_TREE: &str = r#"{ "name": "root", "focused": false, "nodes": [], "floating_nodes": [] }"#;

#[test]
fn sway_tree_parses_focused_window() {
    let focus = sway_focus(SAMPLE_TREE.as_bytes());
    assert!(focus.is_some());
    let f = focus.unwrap();
    let win = window_from(f.title, no_process(f.pid), f.class);
    assert_eq!(win.title, "Terminal");
    assert_eq!(win.process_name, "foot");
}

#[test]
fn sway_tree_empty_returns_none() {
    assert!(sway_focus(EMPTY_TREE.as_bytes()).is_none());
}

#[test]
fn sway_built_trees_match_the_parsed_ones() {
    let f = find_focused(&sample_tree()).unwrap();
    assert_eq!(f.title, "Terminal");
    assert_eq!(f.class, Some("foot".to_string()));
    assert!(find_focused(&empty_tree()).is_none());
    assert!(sway_focus(b"not json").is_none());
}

#[test]
fn sway_request_and_reply_headers() {
    let mut expected = b"i3-ipc".to_vec();
    expected.extend_from_slice(&0u32.to_le_bytes());
    expected.extend_from_slice(&4u32.to_le_bytes());
    assert_eq!(sway_get_tree_request(), expected);
    assert_eq!(sway_get_tree_request().len(), 14);
    let mut meta = [0u8; 14];
    meta[..6].copy_from_slice(b"i3-ipc");
    meta[6..10].copy_from_slice(&300u32.to_le_bytes());
    meta[10..14].copy_from_slice(&4u32.to_le_bytes());
    assert_eq!(sway_reply_length(&meta), Some(300));
    meta[0] = b'x';
    assert_eq!(sway_reply_length(&meta), None);
}

#[test]
fn sway_searches_floating_after_tiled_and_truncates_pid() {
    let mut float = leaf("Float", "", true);
    float.app_id = None;
    float.pid = Some((1u64 << 32) + 7);
    let tree = SwayNode {
        focused: None,
        pid: None,
        app_id: None,
        name: None,
        nodes: Some(vec![leaf("Other", "x", false)]),
        floating_nodes: Some(vec![float]),
    };
    let f = find_focused(&tree).unwrap();
    assert_eq!(f.title, "Float");
    assert_eq!(f.pid, Some(7));
    // Without an app_id the name stands in for the class.
    assert_eq!(f.class, Some("Float".to_string()));
}

#[test]
fn sway_prefers_the_first_focused_in_depth_first_order() {
    let mut inner = leaf("Inner", "inner", false);
    inner.nodes = Some(vec![leaf("Deep", "deep", true)]);
    let tree = SwayNode {
        focused: Some(false),
        pid: None,
        app_id: None,
        name: None,
        nodes: Some(vec![inner, leaf("Later", "later", true)]),
        floating_nodes: None,
    };
    assert_eq!(find_focused(&tree).unwrap().title, "Deep");
}

/// The members of a script reply, read as a struct with optional `u32`
/// `pid` and string `title`/`class` members: a member of another type
/// rejects the whole payload.
fn kde_info(payload: &str) -> Option<WindowInfo> {
    let v: serde_json::Value = serde_json::from_str(payload).ok()?;
    let text = |key: &str| -> Result<Option<String>, ()> {
        match v.get(key) {
            None | Some(serde_json::Value::Null) => Ok(None),
            Some(serde_json::Value::String(s)) => Ok(Some(s.clone())),
            Some(_) => Err(()),
        }
    };
    let pid = match v.get("pid") {
        None | Some(serde_json::Value::Null) => None,
        Some(p) => Some(u32::try_from(p.as_u64()?).ok()?),
    };
    Some(WindowInfo { title: text("title").ok()?, class: text("class").ok()?, pid })
}

#[test]
fn kde_parses_window_payload() {
    let payload = r#"{"title":"Konsole","class":"konsole","pid":0}"#;
    assert!(!is_null_payload(payload));
    let info = kde_info(payload);
    assert!(info.is_some());
    let f = kde_focus(info.unwrap());
    let win = window_from(f.title, no_process(f.pid), f.class);
    assert_eq!(win.title, "Konsole");
    assert_eq!(win.process_name, "konsole");
}

#[test]
fn kde_rejects_a_pid_beyond_u32() {
    assert!(kde_info(r#"{"title":"K","class":"k","pid":4294967296}"#).is_none());
}

#[test]
fn kde_parses_null_payload_as_none() {
    assert!(is_null_payload("null"));
}

#[test]
fn kde_missing_members_default() {
    let f = kde_focus(WindowInfo { title: None, class: None, pid: None });
    assert_eq!(f.title, "");
    let win = window_from(f.title, None, f.class);
    assert_eq!(win.process_name, "unknown");
}

#[test]
fn resolve_process_prefers_pid_then_class_then_unknown() {
    assert_eq!(resolve_process(Some("bash".into()), Some("term".into())), Some("bash".to_string()));
    assert_eq!(resolve_process(None, Some("term".into())), Some("term".to_string()));
    assert_eq!(resolve_process(None, None), Some("unknown".to_string()));
}

#[test]
fn compositor_detection_follows_the_desktop_name() {
    assert_eq!(detect_compositor("ubuntu:GNOME", false), Some(Compositor::Gnome));
    assert_eq!(detect_compositor("Unity", false), Some(Compositor::Gnome));
    assert_eq!(detect_compositor("sway", false), Some(Compositor::Sway));
    assert_eq!(detect_compositor("", true), Some(Compositor::Sway));
    assert_eq!(detect_compositor("KDE", false), Some(Compositor::Kde));
    assert_eq!(detect_compositor("Plasma", false), Some(Compositor::Kde));
    assert_eq!(detect_compositor("XFCE", false), None);
    // GNOME wins over a sway socket; Sway wins over KDE.
    assert_eq!(detect_compositor("GNOME", true), Some(Compositor::Gnome));
    assert_eq!(detect_compositor("KDE", true), Some(Compositor::Sway));
    assert_eq!(compositor_for("GNOME", false), None);
    assert_eq!(compositor_for("gnome", false), Some(Compositor::Gnome));
}

#[test]
fn window_and_idle_sources() {
    assert_eq!(window_source(false, "GNOME", true), WindowSource::X11);
    assert_eq!(window_source(true, "GNOME", false), WindowSource::Wayland(Compositor::Gnome));
    assert_eq!(window_source(true, "LXQt", false), WindowSource::Unavailable);
    assert_eq!(idle_source(false, "KDE"), IdleSource::X11);
    assert_eq!(idle_source(true, "ubuntu:GNOME"), IdleSource::Gnome);
    assert_eq!(idle_source(true, "KDE"), IdleSource::Unavailable);
    assert!(x11_fallback_needed(false, true, true));
    assert!(!x11_fallback_needed(true, true, true));
    assert!(!x11_fallback_needed(false, false, true));
    assert!(!x11_fallback_needed(false, true, false));
}

#[test]
fn comm_names_are_trimmed() {
    assert_eq!(name_from_comm("firefox\n"), Some("firefox".to_string()));
    assert_eq!(name_from_comm("  \n"), None);
    assert_eq!(name_from_comm(""), None);
    assert_eq!(name_from_comm("\u{3000}a b\t"), Some("a b".to_string()));
}

#[test]
fn x11_property_values() {
    assert_eq!(u32_from_le(&[1, 2, 3, 4, 9]), Some(0x0403_0201));
    assert_eq!(u32_from_le(&[1, 2, 3]), None);
    assert_eq!(active_window_id(&[0, 0, 0, 0]), None);
    assert_eq!(active_window_id(&[0x10, 0, 0x40, 0]), Some(0x0040_0010));
    assert_eq!(active_window_id(&[0xff, 0xff, 0xff, 0xff]), Some(u32::MAX));
    assert_eq!(property_text(b""), None);
    assert_eq!(property_text(b"Terminal\0\0"), Some("Terminal".to_string()));
    assert_eq!(property_text(b"a\0b"), Some("a\0b".to_string()));
    assert_eq!(property_text(&[0x66, 0xff]), Some("f\u{FFFD}".to_string()));
}

fn props(fields: Vec<(&str, FieldValue)>) -> WindowProps {
    WindowProps { fields: fields.into_iter().map(|(k, v)| (k.to_string(), v)).collect() }
}

#[test]
fn gnome_introspect_fields() {
    let w = props(vec![
        ("title", FieldValue::Str("Files".into())),
        ("pid", FieldValue::U64((1u64 << 32) + 5)),
        ("app-id", FieldValue::Str("org.gnome.Nautilus".into())),
        ("focus", FieldValue::Bool(true)),
    ]);
    assert!(is_focused(&w));
    assert_eq!(str_field(&w, "title"), Some("Files".to_string()));
    assert_eq!(str_field(&w, "pid"), None);
    assert_eq!(int_field(&w, "pid"), Some(5));
    let f: FocusedWindow = introspect_focus(&w);
    assert_eq!(f.title, "Files");
    assert_eq!(f.pid, Some(5));
    assert_eq!(f.class, Some("org.gnome.Nautilus".to_string()));
    let neg = props(vec![("pid", FieldValue::I32(-3)), ("other", FieldValue::Other)]);
    assert_eq!(int_field(&neg, "pid"), None);
    assert_eq!(introspect_focus(&neg).title, "");
    assert_eq!(introspect_focus(&neg).class, None);
}

#[test]
fn gnome_picks_focused_window_or_first() {
    let a = props(vec![("focus", FieldValue::Bool(false))]);
    let b = props(vec![("focus", FieldValue::Bool(true))]);
    let c = props(vec![("focus", FieldValue::Str("true".into()))]);
    assert_eq!(pick_window(&vec![a, b]), Some(1));
    let a = props(vec![("focus", FieldValue::Bool(false))]);
    assert_eq!(pick_window(&vec![a, c]), Some(0));
    assert_eq!(pick_window(&Vec::new()), None);
}

#[test]
fn gnome_eval_quoted_reply_is_decoded() {
    let out = "  \"{\\\"title\\\":\\\"Doc\\\",\\\"class\\\":\\\"gedit\\\",\\\"pid\\\":0}\"  ";
    let f = eval_window_focus(out).unwrap();
    assert_eq!(f.title, "Doc");
    assert_eq!(f.class, Some("gedit".to_string()));
    assert_eq!(f.pid, Some(0));
    let win = window_from(f.title, None, f.class);
    assert_eq!(win.process_name, "gedit");
    let plain = eval_window_focus(r#"{"title":"T","class":"c","pid":4294967297}"#).unwrap();
    assert_eq!(plain.title, "T");
    assert_eq!(plain.pid, Some(1));
    assert!(eval_window_focus(" null ").is_none());
    assert!(eval_window_focus("\"null\"").is_none());
    assert!(eval_window_focus("").is_none());
    assert!(eval_window_focus("}x{").is_none());
    assert!(eval_window_focus("{not json}").is_none());
    let missing = eval_window_focus("{}").unwrap();
    assert_eq!(missing.title, "");
    assert_eq!(missing.class, Some(String::new()));
    assert_eq!(missing.pid, None);
}

#[test]
fn gnome_eval_reply() {
    let out = "  \"{\\\"title\\\":\\\"Doc\\\",\\\"class\\\":\\\"gedit\\\",\\\"pid\\\":0}\"  ";
    assert!(eval_cut_in_bounds(out));
    let json = eval_json_text(out).unwrap();
    assert_eq!(json, "{\\\"title\\\":\\\"Doc\\\",\\\"class\\\":\\\"gedit\\\",\\\"pid\\\":0}");
    assert_eq!(eval_json_text(" null "), None);
    assert_eq!(eval_json_text("   "), None);
    assert_eq!(eval_json_text("no braces"), None);
    assert_eq!(eval_json_text("a{b}c}d"), Some("{b}c}".to_string()));
    assert!(eval_cut_in_bounds("}{"));
    assert!(!eval_cut_in_bounds("}x{"));
    let f = eval_focus(EvalInfo { title: None, class: None, pid: Some(1u64 << 33) });
    assert_eq!(f.title, "");
    assert_eq!(f.class, Some(String::new()));
    assert_eq!(f.pid, Some(0));
    let win = window_from(f.title, None, f.class);
    assert_eq!(win.process_name, "");
}
