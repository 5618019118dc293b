use windows_sys::Win32::UI::WindowsAndMessaging as wm;
use app_monitor::power::{
    event_for_message, PowerEvent, PBT_APMRESUMESUSPEND, PBT_APMSUSPEND, WM_POWERBROADCAST,
    WM_WTSSESSION_CHANGE, WTS_SESSION_LOCK, WTS_SESSION_UNLOCK,
};
use app_monitor::windows::{exe_name_from_path, idle_ms_since, module_name, window_of_process, window_title};

#[test]
fn idle_time_from_tick_counts() {
    assert_eq!(idle_ms_since(10_000, 2_500), 7_500);
    // The tick counter wrapped between the last input and now.
    assert_eq!(idle_ms_since(5, 10), (u32::MAX - 4) as u64);
    assert_eq!(idle_ms_since(3, u32::MAX), 4);
    assert_eq!(idle_ms_since(7, 7), 0);
    assert_eq!(idle_ms_since(u32::MAX, 0), u32::MAX as u64);
}

#[test]
fn executable_name_from_path() {
    assert_eq!(exe_name_from_path("C:\\Program Files\\App\\app.exe"), "app.exe");
    assert_eq!(exe_name_from_path("app.exe"), "app.exe");
    assert_eq!(exe_name_from_path("C:\\dir\\"), "");
}

#[test]
fn utf16_titles_and_names() {
    let buf: Vec<u16> = "Bloc de notas\0\0".encode_utf16().collect();
    assert_eq!(window_title(&buf, 13), "Bloc de notas");
    assert_eq!(window_title(&buf, 0), "");
    assert_eq!(window_title(&buf, -1), "");
    assert_eq!(window_title(&[0x61, 0xD800], 2), "a\u{FFFD}");
    assert_eq!(module_name(&buf, 4), Some("Bloc".to_string()));
    assert_eq!(module_name(&buf, 0), None);
}

#[test]
fn foreground_window_needs_a_process() {
    assert!(window_of_process("T".into(), 0, Some("x.exe".into())).is_none());
    let w = window_of_process("T".into(), 42, None).unwrap();
    assert_eq!(w.title, "T");
    assert_eq!(w.process_name, "");
    let w = window_of_process("T".into(), 42, Some("x.exe".into())).unwrap();
    assert_eq!(w.process_name, "x.exe");
}

#[test]
fn window_messages_map_to_power_events() {
    assert_eq!(WM_WTSSESSION_CHANGE, wm::WM_WTSSESSION_CHANGE);
    assert_eq!(WM_POWERBROADCAST, wm::WM_POWERBROADCAST);
    assert_eq!(WTS_SESSION_LOCK, wm::WTS_SESSION_LOCK);
    assert_eq!(WTS_SESSION_UNLOCK, wm::WTS_SESSION_UNLOCK);
    assert_eq!(PBT_APMSUSPEND, wm::PBT_APMSUSPEND as usize);
    assert_eq!(PBT_APMRESUMESUSPEND, wm::PBT_APMRESUMESUSPEND as usize);
    assert_eq!(event_for_message(WM_WTSSESSION_CHANGE, WTS_SESSION_LOCK as usize), Some(PowerEvent::Lock));
    assert_eq!(event_for_message(WM_WTSSESSION_CHANGE, WTS_SESSION_UNLOCK as usize), Some(PowerEvent::Unlock));
    assert_eq!(event_for_message(WM_WTSSESSION_CHANGE, (1usize << 32) + 7), Some(PowerEvent::Lock));
    assert_eq!(event_for_message(WM_WTSSESSION_CHANGE, 3), None);
    assert_eq!(event_for_message(WM_POWERBROADCAST, PBT_APMSUSPEND), Some(PowerEvent::Suspend));
    assert_eq!(event_for_message(WM_POWERBROADCAST, PBT_APMRESUMESUSPEND), Some(PowerEvent::Resume));
    assert_eq!(event_for_message(WM_POWERBROADCAST, (1usize << 32) + 4), None);
    assert_eq!(event_for_message(0x0002, 7), None);
}
