//! Decision logic of the Linux backends: which desktop backend to query,
//! how a process name is chosen, and how the replies of X11 (EWMH), Sway,
//! KWin scripts and GNOME Shell are read. The connections themselves are
//! made by the application around this library.

use crate::text::{
    contains, decode_utf8_lossy, find_char, rfind_char, lowercase, occurs_in, same_text, to_lowercase, trim, trim_end_nul,
    trimmed, utf8_lossy, without_trailing_nul,
};
use vstd::prelude::*;
use vstd::string::*;

verus! {

/// The window in the foreground.
#[derive(Debug, Clone)]
pub struct ActiveWindow {
    pub title: String,
    pub process_name: String,
}

/// Wayland compositors with a dedicated backend.
#[derive(Debug, Clone, Copy, PartialEq, Eq, Structural)]
pub enum Compositor {
    Gnome,
    Sway,
    Kde,
}

/// Where the foreground window is read from.
#[derive(Debug, Clone, Copy, PartialEq, Eq, Structural)]
pub enum WindowSource {
    /// The X server (EWMH `_NET_ACTIVE_WINDOW`).
    X11,
    /// A Wayland compositor.
    Wayland(Compositor),
    /// A Wayland session with no known compositor: no window is reported.
    Unavailable,
}

/// Where the user's idle time is read from.
#[derive(Debug, Clone, Copy, PartialEq, Eq, Structural)]
pub enum IdleSource {
    /// The X server's screensaver extension.
    X11,
    /// GNOME's Mutter idle monitor.
    Gnome,
    /// No source: the idle time is reported as 0.
    Unavailable,
}

/// A lower-cased `XDG_CURRENT_DESKTOP` naming GNOME (or Unity).
pub open spec fn gnome_like(desktop_lower: Seq<char>) -> bool {
    occurs_in(desktop_lower, "gnome"@) || occurs_in(desktop_lower, "unity"@)
}

/// The compositor that a lower-cased `XDG_CURRENT_DESKTOP` and the presence
/// of `SWAYSOCK` select, checked in the order GNOME, Sway, KDE.
pub open spec fn compositor_of(desktop_lower: Seq<char>, swaysock_set: bool) -> Option<Compositor> {
    if gnome_like(desktop_lower) {
        Some(Compositor::Gnome)
    } else if occurs_in(desktop_lower, "sway"@) || swaysock_set {
        Some(Compositor::Sway)
    } else if occurs_in(desktop_lower, "kde"@) || occurs_in(desktop_lower, "plasma"@) {
        Some(Compositor::Kde)
    } else {
        None
    }
}

/// The compositor for an already lower-cased desktop name.
pub fn compositor_for(desktop_lower: &str, swaysock_set: bool) -> (r: Option<Compositor>)
    ensures
        r == compositor_of(desktop_lower@, swaysock_set),
{
    if contains(desktop_lower, "gnome") || contains(desktop_lower, "unity") {
        Some(Compositor::Gnome)
    } else if contains(desktop_lower, "sway") || swaysock_set {
        Some(Compositor::Sway)
    } else if contains(desktop_lower, "kde") || contains(desktop_lower, "plasma") {
        Some(Compositor::Kde)
    } else {
        None
    }
}

/// The compositor named by `XDG_CURRENT_DESKTOP` (any case) and `SWAYSOCK`.
pub fn detect_compositor(desktop: &str, swaysock_set: bool) -> (r: Option<Compositor>)
    ensures
        r == compositor_of(lowercase(desktop@), swaysock_set),
{
    let lower = to_lowercase(desktop);
    compositor_for(lower.as_str(), swaysock_set)
}

/// The backend that reports the foreground window: X11 outside Wayland,
/// else the compositor that the desktop names.
pub fn window_source(wayland_session: bool, desktop: &str, swaysock_set: bool) -> (r: WindowSource)
    ensures
        !wayland_session ==> r == WindowSource::X11,
        wayland_session ==> r == match compositor_of(lowercase(desktop@), swaysock_set) {
            Some(c) => WindowSource::Wayland(c),
            None => WindowSource::Unavailable,
        },
{
    if !wayland_session {
        WindowSource::X11
    } else {
        match detect_compositor(desktop, swaysock_set) {
            Some(c) => WindowSource::Wayland(c),
            None => WindowSource::Unavailable,
        }
    }
}

/// Whether to try X11 (XWayland) after the Wayland backend found no window:
/// only in a Wayland session that also has an X display.
pub fn x11_fallback_needed(found: bool, wayland_session: bool, display_set: bool) -> (r: bool)
    ensures
        r == (!found && wayland_session && display_set),
{
    !found && wayland_session && display_set
}

/// The backend that reports the idle time: X11 outside Wayland, GNOME's
/// idle monitor on GNOME-like Wayland desktops, none otherwise.
pub fn idle_source(wayland_session: bool, desktop: &str) -> (r: IdleSource)
    ensures
        r == if !wayland_session {
            IdleSource::X11
        } else if gnome_like(lowercase(desktop@)) {
            IdleSource::Gnome
        } else {
            IdleSource::Unavailable
        },
{
    if !wayland_session {
        IdleSource::X11
    } else {
        let lower = to_lowercase(desktop);
        if contains(lower.as_str(), "gnome") || contains(lower.as_str(), "unity") {
            IdleSource::Gnome
        } else {
            IdleSource::Unavailable
        }
    }
}

/// The process name chosen from the name found for the PID, the window
/// class, or `"unknown"`, in that order of preference.
pub open spec fn resolved_name(pid_name: Option<String>, class: Option<String>) -> Seq<char> {
    match pid_name {
        Some(n) => n@,
        None => match class {
            Some(c) => c@,
            None => "unknown"@,
        },
    }
}

/// The name of the process behind the PID always wins over the window
/// class; with neither, the process is `"unknown"`.
pub fn resolve_process(pid_name: Option<String>, class: Option<String>) -> (r: Option<String>)
    ensures
        r is Some,
        r.unwrap()@ == resolved_name(pid_name, class),
{
    match pid_name {
        Some(n) => Some(n),
        None => match class {
            Some(c) => Some(c),
            None => Some(String::from_str("unknown")),
        },
    }
}

/// The foreground window with the given title and the resolved process.
pub fn window_from(title: String, pid_name: Option<String>, class: Option<String>) -> (w: ActiveWindow)
    ensures
        w.title == title,
        w.process_name@ == resolved_name(pid_name, class),
{
    let process_name = resolve_process(pid_name, class).unwrap();
    ActiveWindow { title, process_name }
}

/// The process name read from `/proc/<pid>/comm`: the trimmed text, unless
/// it is empty.
pub fn name_from_comm(comm: &str) -> (r: Option<String>)
    ensures
        r is Some <==> trimmed(comm@).len() > 0,
        r matches Some(n) ==> n@ == trimmed(comm@),
{
    let name = trim(comm);
    if name.unicode_len() == 0 {
        None
    } else {
        Some(name)
    }
}

/// The little-endian `u32` made of the first four bytes.
pub open spec fn le_u32(b: Seq<u8>) -> u32
    recommends
        b.len() >= 4,
{
    (b[0] + 256 * b[1] + 65536 * b[2] + 16777216 * b[3]) as u32
}

/// The little-endian `u32` at the start of an X property value, when the
/// value holds at least four bytes.
pub fn u32_from_le(bytes: &[u8]) -> (r: Option<u32>)
    ensures
        bytes@.len() >= 4 ==> r == Some(le_u32(bytes@)),
        bytes@.len() < 4 ==> r is None,
{
    if bytes.len() < 4 {
        None
    } else {
        let v: u32 = bytes[0] as u32 + 256 * (bytes[1] as u32) + 65536 * (bytes[2] as u32) + 16777216
            * (bytes[3] as u32);
        Some(v)
    }
}

/// The window named by the root's `_NET_ACTIVE_WINDOW` property: none when
/// the value is shorter than four bytes or names window 0.
pub fn active_window_id(prop: &[u8]) -> (r: Option<u32>)
    ensures
        r == if prop@.len() >= 4 && le_u32(prop@) != 0 {
            Some(le_u32(prop@))
        } else {
            None
        },
{
    match u32_from_le(prop) {
        Some(w) => if w == 0 {
            None
        } else {
            Some(w)
        },
        None => None,
    }
}

/// The text of a window-name property: the UTF-8 value (lossily decoded)
/// without trailing NULs; none when the value is empty.
pub fn property_text(value: &[u8]) -> (r: Option<String>)
    ensures
        value@.len() == 0 ==> r is None,
        value@.len() > 0 ==> r is Some && r.unwrap()@ == without_trailing_nul(utf8_lossy(value@)),
{
    if value.len() == 0 {
        None
    } else {
        let text = decode_utf8_lossy(value);
        Some(trim_end_nul(text.as_str()))
    }
}

/// A node of Sway's `get_tree` reply, with the members the search reads:
/// each is `None` when the member is absent or of another JSON type.
pub struct SwayNode {
    pub focused: Option<bool>,
    pub pid: Option<u64>,
    pub app_id: Option<String>,
    pub name: Option<String>,
    pub nodes: Option<Vec<SwayNode>>,
    pub floating_nodes: Option<Vec<SwayNode>>,
}

/// What a backend learned of the focused window before the process behind
/// its PID is looked up.
pub struct FocusedWindow {
    pub title: String,
    pub pid: Option<u32>,
    pub class: Option<String>,
}

/// The view of an optional string.
pub open spec fn opt_view(s: Option<String>) -> Option<Seq<char>> {
    match s {
        Some(t) => Some(t@),
        None => None,
    }
}

/// The first focused node in depth-first order: the node itself, then its
/// tiled children, then its floating children.
pub open spec fn first_focused(node: SwayNode) -> Option<SwayNode>
    decreases node,
{
    if node.focused == Some(true) {
        Some(node)
    } else {
        let tiled = match node.nodes {
            Some(v) => first_focused_in(v@),
            None => None,
        };
        if tiled is Some {
            tiled
        } else {
            match node.floating_nodes {
                Some(v) => first_focused_in(v@),
                None => None,
            }
        }
    }
}

/// The first focused node among a list of trees.
pub open spec fn first_focused_in(list: Seq<SwayNode>) -> Option<SwayNode>
    decreases list,
{
    if list.len() == 0 {
        None
    } else {
        match first_focused(list[0]) {
            Some(n) => Some(n),
            None => first_focused_in(list.subrange(1, list.len() as int)),
        }
    }
}

/// `f` reports node `n`: its name as title (empty when absent), its PID
/// truncated to 32 bits, and its `app_id`, else its name, as class.
pub open spec fn reports_node(f: FocusedWindow, n: SwayNode) -> bool {
    &&& f.title@ == match n.name {
        Some(t) => t@,
        None => Seq::empty(),
    }
    &&& f.pid == match n.pid {
        Some(p) => Some(p as u32),
        None => None,
    }
    &&& opt_view(f.class) == match n.app_id {
        Some(a) => Some(a@),
        None => opt_view(n.name),
    }
}

fn clone_opt(s: &Option<String>) -> (r: Option<String>)
    ensures
        r == *s,
{
    match s {
        Some(t) => Some(t.clone()),
        None => None,
    }
}

/// The focused window of a Sway tree, searched depth-first.
pub fn find_focused(node: &SwayNode) -> (r: Option<FocusedWindow>)
    ensures
        r is Some <==> first_focused(*node) is Some,
        r matches Some(f) ==> reports_node(f, first_focused(*node).unwrap()),
    decreases node,
{
    if node.focused == Some(true) {
        let title = match &node.name {
            Some(t) => t.clone(),
            None => String::new(),
        };
        let pid = match node.pid {
            Some(p) => Some(p as u32),
            None => None,
        };
        let class = match &node.app_id {
            Some(a) => Some(a.clone()),
            None => clone_opt(&node.name),
        };
        return Some(FocusedWindow { title, pid, class });
    }
    if let Some(v) = &node.nodes {
        proof {
            assert(decreases_to!(*node => node.nodes));
        }
        if let Some(f) = find_focused_in(v) {
            return Some(f);
        }
    }
    if let Some(v) = &node.floating_nodes {
        proof {
            assert(decreases_to!(*node => node.floating_nodes));
        }
        return find_focused_in(v);
    }
    None
}

/// The focused window among a list of trees.
fn find_focused_in(list: &Vec<SwayNode>) -> (r: Option<FocusedWindow>)
    ensures
        r is Some <==> first_focused_in(list@) is Some,
        r matches Some(f) ==> reports_node(f, first_focused_in(list@).unwrap()),
    decreases list,
{
    let n = list.len();
    let mut i: usize = 0;
    proof {
        assert(list@.subrange(0, n as int) =~= list@);
    }
    while i < n
        invariant
            n == list@.len(),
            i <= n,
            first_focused_in(list@) == first_focused_in(list@.subrange(i as int, n as int)),
        decreases n - i,
    {
        let ghost rest = list@.subrange(i as int, n as int);
        proof {
            assert(rest[0] == list@[i as int]);
            assert(rest.subrange(1, rest.len() as int) =~= list@.subrange(i + 1, n as int));
            assert(decreases_to!(list => list@[i as int]));
        }
        if let Some(f) = find_focused(&list[i]) {
            return Some(f);
        }
        i = i + 1;
    }
    None
}

/// Whether a KWin script reply says that no window has the focus.
pub fn is_null_payload(payload: &str) -> (r: bool)
    ensures
        r == (payload@ == "null"@),
{
    same_text(payload, "null")
}

/// The members of a KWin script reply.
pub struct WindowInfo {
    pub title: Option<String>,
    pub class: Option<String>,
    pub pid: Option<u32>,
}

/// What a KWin script reply reports, before the PID is looked up.
pub fn kde_focus(info: WindowInfo) -> (f: FocusedWindow)
    ensures
        f.title@ == match info.title {
            Some(t) => t@,
            None => Seq::empty(),
        },
        f.pid == info.pid,
        f.class == info.class,
{
    let title = match info.title {
        Some(t) => t,
        None => String::new(),
    };
    FocusedWindow { title, pid: info.pid, class: info.class }
}

/// A value of a GNOME Shell window description, as far as the backend
/// reads it.
pub enum FieldValue {
    Bool(bool),
    Str(String),
    U32(u32),
    U64(u64),
    I32(i32),
    /// Any other D-Bus type.
    Other,
}

/// A window described by `org.gnome.Shell.Introspect.GetWindows`: its
/// properties by name.
pub struct WindowProps {
    pub fields: Vec<(String, FieldValue)>,
}

/// The value stored under `key` (the first entry with that name).
pub open spec fn lookup(fields: Seq<(String, FieldValue)>, key: Seq<char>) -> Option<FieldValue>
    decreases fields.len(),
{
    if fields.len() == 0 {
        None
    } else if fields[0].0@ == key {
        Some(fields[0].1)
    } else {
        lookup(fields.subrange(1, fields.len() as int), key)
    }
}

/// A string property.
pub open spec fn str_field_of(fields: Seq<(String, FieldValue)>, key: Seq<char>) -> Option<Seq<char>> {
    match lookup(fields, key) {
        Some(FieldValue::Str(s)) => Some(s@),
        _ => None,
    }
}

/// An integer property as a `u32`: 64-bit values are truncated, negative
/// 32-bit values are dropped.
pub open spec fn int_field_of(fields: Seq<(String, FieldValue)>, key: Seq<char>) -> Option<u32> {
    match lookup(fields, key) {
        Some(FieldValue::U32(n)) => Some(n),
        Some(FieldValue::U64(n)) => Some(n as u32),
        Some(FieldValue::I32(n)) => if n >= 0 {
            Some(n as u32)
        } else {
            None
        },
        _ => None,
    }
}

/// Whether the window carries `focus: true`.
pub open spec fn has_focus(fields: Seq<(String, FieldValue)>) -> bool {
    match lookup(fields, "focus"@) {
        Some(FieldValue::Bool(b)) => b,
        _ => false,
    }
}

/// The property named `key`.
pub fn field<'a>(props: &'a WindowProps, key: &str) -> (r: Option<&'a FieldValue>)
    ensures
        r is Some <==> lookup(props.fields@, key@) is Some,
        r matches Some(v) ==> *v == lookup(props.fields@, key@).unwrap(),
{
    let n = props.fields.len();
    let mut i: usize = 0;
    proof {
        assert(props.fields@.subrange(0, n as int) =~= props.fields@);
    }
    while i < n
        invariant
            n == props.fields@.len(),
            i <= n,
            lookup(props.fields@, key@) == lookup(props.fields@.subrange(i as int, n as int), key@),
        decreases n - i,
    {
        let ghost rest = props.fields@.subrange(i as int, n as int);
        proof {
            assert(rest[0] == props.fields@[i as int]);
            assert(rest.subrange(1, rest.len() as int) =~= props.fields@.subrange(i + 1, n as int));
        }
        if same_text(props.fields[i].0.as_str(), key) {
            return Some(&props.fields[i].1);
        }
        i = i + 1;
    }
    None
}

/// A string property of the window.
pub fn str_field(props: &WindowProps, key: &str) -> (r: Option<String>)
    ensures
        opt_view(r) == str_field_of(props.fields@, key@),
{
    match field(props, key) {
        Some(FieldValue::Str(s)) => Some(s.clone()),
        _ => None,
    }
}

/// An integer property of the window, as a `u32`.
pub fn int_field(props: &WindowProps, key: &str) -> (r: Option<u32>)
    ensures
        r == int_field_of(props.fields@, key@),
{
    match field(props, key) {
        Some(FieldValue::U32(n)) => Some(*n),
        Some(FieldValue::U64(n)) => Some(*n as u32),
        Some(FieldValue::I32(n)) => if *n >= 0 {
            Some(*n as u32)
        } else {
            None
        },
        _ => None,
    }
}

/// Whether the window carries `focus: true`.
pub fn is_focused(props: &WindowProps) -> (r: bool)
    ensures
        r == has_focus(props.fields@),
{
    match field(props, "focus") {
        Some(FieldValue::Bool(b)) => *b,
        _ => false,
    }
}

/// The window to report among those GNOME lists: the first with the
/// focus, else the first one; none when the list is empty.
pub fn pick_window(windows: &Vec<WindowProps>) -> (r: Option<usize>)
    ensures
        windows@.len() == 0 ==> r is None,
        windows@.len() > 0 ==> r is Some,
        r matches Some(i) ==> {
            &&& i < windows@.len()
            &&& forall|k: int| 0 <= k < i ==> !has_focus(#[trigger] windows@[k].fields@)
            &&& has_focus(windows@[i as int].fields@) || (i == 0 && forall|k: int|
                0 <= k < windows@.len() ==> !has_focus(#[trigger] windows@[k].fields@))
        },
{
    let n = windows.len();
    for i in 0..n
        invariant
            n == windows@.len(),
            forall|k: int| 0 <= k < i ==> !has_focus(#[trigger] windows@[k].fields@),
    {
        if is_focused(&windows[i]) {
            return Some(i);
        }
    }
    if n == 0 {
        None
    } else {
        Some(0)
    }
}

/// What a GNOME window description reports, before the PID is looked up:
/// its title (empty when absent), its PID, and its class, else its app id.
pub fn introspect_focus(props: &WindowProps) -> (f: FocusedWindow)
    ensures
        f.title@ == match str_field_of(props.fields@, "title"@) {
            Some(t) => t,
            None => Seq::empty(),
        },
        f.pid == int_field_of(props.fields@, "pid"@),
        opt_view(f.class) == match str_field_of(props.fields@, "class"@) {
            Some(c) => Some(c),
            None => str_field_of(props.fields@, "app-id"@),
        },
{
    let title = match str_field(props, "title") {
        Some(t) => t,
        None => String::new(),
    };
    let pid = int_field(props, "pid");
    let class = match str_field(props, "class") {
        Some(c) => Some(c),
        None => str_field(props, "app-id"),
    };
    FocusedWindow { title, pid, class }
}

/// The position of the first `c` in `s`.
pub open spec fn first_pos(s: Seq<char>, c: char) -> int {
    choose|i: int| 0 <= i < s.len() && s[i] == c && forall|k: int| 0 <= k < i ==> s[k] != c
}

/// The position of the last `c` in `s`.
pub open spec fn last_pos(s: Seq<char>, c: char) -> int {
    choose|i: int| 0 <= i < s.len() && s[i] == c && forall|k: int| i < k < s.len() ==> s[k] != c
}

/// The JSON text inside an `org.gnome.Shell.Eval` reply: the trimmed reply
/// from its first `{` to its last `}`; none for an empty or `null` reply
/// or one without braces.
pub open spec fn eval_json(out: Seq<char>) -> Option<Seq<char>> {
    let p = trimmed(out);
    if p == "null"@ || p.len() == 0 || !p.contains('{') || !p.contains('}') {
        None
    } else {
        Some(p.subrange(first_pos(p, '{'), last_pos(p, '}') + 1))
    }
}

/// The reply can be cut from its first `{` to its last `}`: the last `}`
/// does not stand more than one place before the first `{`.
pub open spec fn eval_cut_ok(out: Seq<char>) -> bool {
    let p = trimmed(out);
    (p == "null"@ || p.len() == 0 || !p.contains('{') || !p.contains('}')) || first_pos(p, '{')
        <= last_pos(p, '}') + 1
}

proof fn lemma_first_pos(s: Seq<char>, c: char, i: int)
    requires
        0 <= i < s.len(),
        s[i] == c,
        forall|k: int| 0 <= k < i ==> s[k] != c,
    ensures
        first_pos(s, c) == i,
{
    let j = first_pos(s, c);
    assert(0 <= j < s.len() && s[j] == c && forall|k: int| 0 <= k < j ==> s[k] != c);
}

proof fn lemma_last_pos(s: Seq<char>, c: char, i: int)
    requires
        0 <= i < s.len(),
        s[i] == c,
        forall|k: int| i < k < s.len() ==> s[k] != c,
    ensures
        last_pos(s, c) == i,
{
    let j = last_pos(s, c);
    assert(0 <= j < s.len() && s[j] == c && forall|k: int| j < k < s.len() ==> s[k] != c);
}

/// Whether an `org.gnome.Shell.Eval` reply can be cut at its braces.
pub fn eval_cut_in_bounds(out: &str) -> (r: bool)
    ensures
        r == eval_cut_ok(out@),
{
    let p = trim(out);
    if same_text(p.as_str(), "null") || p.unicode_len() == 0 {
        return true;
    }
    match (find_char(p.as_str(), '{'), rfind_char(p.as_str(), '}')) {
        (Some(start), Some(end)) => {
            proof {
                lemma_first_pos(p@, '{', start as int);
                lemma_last_pos(p@, '}', end as int);
                assert(p@.contains('{'));
                assert(p@.contains('}'));
            }
            start <= end + 1
        },
        (a, b) => {
            proof {
                if a is None {
                    assert(!p@.contains('{'));
                } else {
                    assert(!p@.contains('}'));
                }
            }
            true
        },
    }
}

/// The JSON text inside an `org.gnome.Shell.Eval` reply.
pub fn eval_json_text(out: &str) -> (r: Option<String>)
    requires
        eval_cut_ok(out@),
    ensures
        opt_view(r) == eval_json(out@),
{
    let p = trim(out);
    if same_text(p.as_str(), "null") || p.unicode_len() == 0 {
        return None;
    }
    let start = match find_char(p.as_str(), '{') {
        Some(i) => i,
        None => {
            proof {
                assert(!p@.contains('{'));
            }
            return None;
        },
    };
    let end = match rfind_char(p.as_str(), '}') {
        Some(j) => j,
        None => {
            proof {
                assert(!p@.contains('}'));
            }
            return None;
        },
    };
    proof {
        lemma_first_pos(p@, '{', start as int);
        lemma_last_pos(p@, '}', end as int);
        assert(p@.contains('{'));
        assert(p@.contains('}'));
    }
    Some(String::from_str(p.as_str().substring_char(start, end + 1)))
}

/// The members of an `org.gnome.Shell.Eval` reply: `title` and `class`
/// when they are strings, `pid` when it is an unsigned integer.
pub struct EvalInfo {
    pub title: Option<String>,
    pub class: Option<String>,
    pub pid: Option<u64>,
}

/// What an Eval reply reports, before the PID is looked up: missing title
/// and class read as empty, the PID is truncated to 32 bits.
pub fn eval_focus(info: EvalInfo) -> (f: FocusedWindow)
    ensures
        f.title@ == match info.title {
            Some(t) => t@,
            None => Seq::empty(),
        },
        f.pid == match info.pid {
            Some(p) => Some(p as u32),
            None => None,
        },
        opt_view(f.class) == Some(
            match info.class {
                Some(c) => c@,
                None => Seq::empty(),
            },
        ),
{
    let title = match info.title {
        Some(t) => t,
        None => String::new(),
    };
    let class = match info.class {
        Some(c) => c,
        None => String::new(),
    };
    let pid = match info.pid {
        Some(p) => Some(p as u32),
        None => None,
    };
    FocusedWindow { title, pid, class: Some(class) }
}

/// The magic string that opens every message of the i3/Sway IPC protocol.
pub open spec fn ipc_magic() -> Seq<u8> {
    seq![0x69u8, 0x33u8, 0x2du8, 0x69u8, 0x70u8, 0x63u8]
}

/// The `get_tree` request sent to Sway: the magic, the payload length 0 and
/// the message type 4, both as little-endian `u32`.
pub fn sway_get_tree_request() -> (r: Vec<u8>)
    ensures
        r@ == ipc_magic() + seq![0u8, 0u8, 0u8, 0u8, 4u8, 0u8, 0u8, 0u8],
{
    let mut header: Vec<u8> = Vec::new();
    header.push(0x69);
    header.push(0x33);
    header.push(0x2d);
    header.push(0x69);
    header.push(0x70);
    header.push(0x63);
    header.push(0);
    header.push(0);
    header.push(0);
    header.push(0);
    header.push(4);
    header.push(0);
    header.push(0);
    header.push(0);
    proof {
        assert(header@ =~= ipc_magic() + seq![0u8, 0u8, 0u8, 0u8, 4u8, 0u8, 0u8, 0u8]);
    }
    header
}

/// The payload length announced by the header of a Sway reply; none when
/// the header does not start with the IPC magic.
pub fn sway_reply_length(meta: &[u8; 14]) -> (r: Option<u32>)
    ensures
        meta@.subrange(0, 6) == ipc_magic() ==> r == Some(le_u32(meta@.subrange(6, 14))),
        meta@.subrange(0, 6) != ipc_magic() ==> r is None,
{
    let magic = meta[0] == 0x69 && meta[1] == 0x33 && meta[2] == 0x2d && meta[3] == 0x69 && meta[4]
        == 0x70 && meta[5] == 0x63;
    proof {
        if magic {
            assert(meta@.subrange(0, 6) =~= ipc_magic());
        } else {
            assert(meta@.subrange(0, 6) != ipc_magic()) by {
                if meta@.subrange(0, 6) == ipc_magic() {
                    assert(meta@.subrange(0, 6)[0] == meta@[0]);
                    assert(meta@.subrange(0, 6)[1] == meta@[1]);
                    assert(meta@.subrange(0, 6)[2] == meta@[2]);
                    assert(meta@.subrange(0, 6)[3] == meta@[3]);
                    assert(meta@.subrange(0, 6)[4] == meta@[4]);
                    assert(meta@.subrange(0, 6)[5] == meta@[5]);
                }
            }
        }
    }
    if !magic {
        return None;
    }
    let len: u32 = meta[6] as u32 + 256 * (meta[7] as u32) + 65536 * (meta[8] as u32) + 16777216 * (
    meta[9] as u32);
    proof {
        let t = meta@.subrange(6, 14);
        assert(t[0] == meta@[6] && t[1] == meta@[7] && t[2] == meta@[8] && t[3] == meta@[9]);
    }
    Some(len)
}

/// The one-shot KWin script that reports the active window (title, class
/// and PID as JSON, or `null`) to the D-Bus name `unique`.
pub fn kwin_script(unique: &str) -> (r: String)
    ensures
        r@ == "function output_result(message) {\n    callDBus(\""@ + unique@
            + "\", \"/\", \"\", \"result\", message.toString());\n}\ntry {\n    var w = workspace.activeWindow;\n    if (w) {\n        output_result(JSON.stringify({\n            title: w.caption || \"\",\n            class: w.resourceClass || \"\",\n            pid: (typeof w.pid === \"number\") ? w.pid : 0\n        }));\n    } else {\n        output_result(\"null\");\n    }\n} catch (e) {\n    output_result(JSON.stringify({ error: String(e) }));\n}\n"@,
{
    let mut script = String::from_str("function output_result(message) {\n    callDBus(\"");
    script.append(unique);
    script.append(
        "\", \"/\", \"\", \"result\", message.toString());\n}\ntry {\n    var w = workspace.activeWindow;\n    if (w) {\n        output_result(JSON.stringify({\n            title: w.caption || \"\",\n            class: w.resourceClass || \"\",\n            pid: (typeof w.pid === \"number\") ? w.pid : 0\n        }));\n    } else {\n        output_result(\"null\");\n    }\n} catch (e) {\n    output_result(JSON.stringify({ error: String(e) }));\n}\n",
    );
    script
}

#[verifier::external_type_specification]
#[verifier::external_body]
pub struct ExJsonValue(serde_json::Value);

/// The tree that a Sway `get_tree` reply holds: the JSON text parsed by
/// `serde_json`, with each node's members read as `SwayNode` does; none
/// when the payload is not JSON.
pub uninterp spec fn sway_tree(payload: Seq<u8>) -> Option<SwayNode>;

/// The text a JSON string literal stands for, as `serde_json` decodes it;
/// none when the text is not a JSON string literal.
pub uninterp spec fn json_string_literal(text: Seq<char>) -> Option<Seq<char>>;

/// The members `title` and `class` (when strings) and `pid` (when an
/// unsigned integer) of a JSON text, as `serde_json` parses it; none when
/// the text is not JSON.
pub uninterp spec fn eval_members(text: Seq<char>) -> Option<(Option<Seq<char>>, Option<Seq<char>>, Option<u64>)>;

/// Reads the members of one parsed node and, recursively, of its children
/// (with `serde_json::Value::get` and its `as_*` accessors); it makes up
/// the value that `sway_tree` names.
#[verifier::external_body]
fn sway_node_from_json(v: &serde_json::Value) -> SwayNode {
    let list = |key: &str| v.get(key).and_then(serde_json::Value::as_array).map(|a| a.iter().map(sway_node_from_json).collect());
    SwayNode {
        focused: v.get("focused").and_then(serde_json::Value::as_bool),
        pid: v.get("pid").and_then(serde_json::Value::as_u64),
        app_id: v.get("app_id").and_then(serde_json::Value::as_str).map(String::from),
        name: v.get("name").and_then(serde_json::Value::as_str).map(String::from),
        nodes: list("nodes"),
        floating_nodes: list("floating_nodes"),
    }
}

/// Calls `serde_json::from_slice` on a Sway reply and reads the tree's
/// members; the result is the named tree of the payload.
#[verifier::external_body]
fn parse_sway_tree(payload: &[u8]) -> (r: Option<SwayNode>)
    ensures
        r == sway_tree(payload@),
{
    serde_json::from_slice::<serde_json::Value>(payload).ok().map(|v| sway_node_from_json(&v))
}

/// The focused window of a Sway `get_tree` reply: the first focused node of
/// the parsed tree, searched depth-first.
pub fn sway_focus(payload: &[u8]) -> (r: Option<FocusedWindow>)
    ensures
        r is Some <==> (sway_tree(payload@) is Some && first_focused(sway_tree(payload@).unwrap()) is Some),
        r matches Some(f) ==> reports_node(f, first_focused(sway_tree(payload@).unwrap()).unwrap()),
{
    match parse_sway_tree(payload) {
        Some(tree) => find_focused(&tree),
        None => None,
    }
}

/// Calls `serde_json::from_str::<String>`; the result is the named decoding
/// of a JSON string literal.
#[verifier::external_body]
fn parse_json_string(text: &str) -> (r: Option<String>)
    ensures
        opt_view(r) == json_string_literal(text@),
{
    serde_json::from_str::<String>(text).ok()
}

/// Calls `serde_json::from_str` and reads the members `title`, `class` and
/// `pid`; the result is the named reading of the text.
#[verifier::external_body]
fn parse_eval_members(text: &str) -> (r: Option<EvalInfo>)
    ensures
        match eval_members(text@) {
            None => r is None,
            Some(m) => r is Some && opt_view(r.unwrap().title) == m.0 && opt_view(r.unwrap().class) == m.1
                && r.unwrap().pid == m.2,
        },
{
    let v: serde_json::Value = serde_json::from_str(text).ok()?;
    Some(EvalInfo {
        title: v.get("title").and_then(serde_json::Value::as_str).map(String::from),
        class: v.get("class").and_then(serde_json::Value::as_str).map(String::from),
        pid: v.get("pid").and_then(serde_json::Value::as_u64),
    })
}

/// The text of an `org.gnome.Shell.Eval` reply: the trimmed reply, decoded
/// when it is a JSON string literal (as `JSON.stringify` returns a string).
pub open spec fn eval_reply_text(out: Seq<char>) -> Seq<char> {
    let p = trimmed(out);
    match json_string_literal(p) {
        Some(s) => s,
        None => p,
    }
}

/// `f` reports the members `m` of an Eval reply: missing title and class
/// read as empty, the PID is truncated to 32 bits.
pub open spec fn reports_members(
    f: FocusedWindow,
    m: (Option<Seq<char>>, Option<Seq<char>>, Option<u64>),
) -> bool {
    &&& f.title@ == match m.0 {
        Some(t) => t,
        None => Seq::empty(),
    }
    &&& f.pid == match m.2 {
        Some(p) => Some(p as u32),
        None => None,
    }
    &&& opt_view(f.class) == Some(
        match m.1 {
            Some(c) => c,
            None => Seq::empty(),
        },
    )
}

/// What an `org.gnome.Shell.Eval` reply reports, before the PID is looked
/// up: the reply is decoded when quoted, cut from its first `{` to its last
/// `}` and its members read. None for an empty or `null` reply, one
/// without braces, one whose last `}` stands before its first `{`, or one
/// that is not JSON.
pub fn eval_window_focus(out: &str) -> (r: Option<FocusedWindow>)
    ensures
        !eval_cut_ok(eval_reply_text(out@)) ==> r is None,
        eval_cut_ok(eval_reply_text(out@)) ==> match eval_json(eval_reply_text(out@)) {
            None => r is None,
            Some(j) => match eval_members(j) {
                None => r is None,
                Some(m) => r is Some && reports_members(r.unwrap(), m),
            },
        },
{
    let p = trim(out);
    let text = match parse_json_string(p.as_str()) {
        Some(s) => s,
        None => p,
    };
    if !eval_cut_in_bounds(text.as_str()) {
        return None;
    }
    let json = match eval_json_text(text.as_str()) {
        Some(j) => j,
        None => {
            return None;
        },
    };
    match parse_eval_members(json.as_str()) {
        Some(info) => Some(eval_focus(info)),
        None => None,
    }
}

} // verus!
