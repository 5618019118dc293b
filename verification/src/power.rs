//! Lock and suspend notifications: which Windows message means which event.

use vstd::prelude::*;

verus! {

/// Power and lock events that concern the monitor.
#[derive(Debug, Clone, Copy, PartialEq, Eq, Structural)]
pub enum PowerEvent {
    Lock,
    Unlock,
    Suspend,
    Resume,
}

/// `WM_WTSSESSION_CHANGE`.
pub const WM_WTSSESSION_CHANGE: u32 = 0x02B1;

/// `WM_POWERBROADCAST`.
pub const WM_POWERBROADCAST: u32 = 0x0218;

/// `WTS_SESSION_LOCK`.
pub const WTS_SESSION_LOCK: u32 = 0x7;

/// `WTS_SESSION_UNLOCK`.
pub const WTS_SESSION_UNLOCK: u32 = 0x8;

/// `PBT_APMSUSPEND`.
pub const PBT_APMSUSPEND: usize = 4;

/// `PBT_APMRESUMESUSPEND`.
pub const PBT_APMRESUMESUSPEND: usize = 7;

/// The event that a window message announces, if any. Session changes
/// compare the low 32 bits of `wparam`; power broadcasts all of it.
pub fn event_for_message(msg: u32, wparam: usize) -> (r: Option<PowerEvent>)
    ensures
        r == if msg == WM_WTSSESSION_CHANGE {
            if wparam as u32 == WTS_SESSION_LOCK {
                Some(PowerEvent::Lock)
            } else if wparam as u32 == WTS_SESSION_UNLOCK {
                Some(PowerEvent::Unlock)
            } else {
                None
            }
        } else if msg == WM_POWERBROADCAST {
            if wparam == PBT_APMSUSPEND {
                Some(PowerEvent::Suspend)
            } else if wparam == PBT_APMRESUMESUSPEND {
                Some(PowerEvent::Resume)
            } else {
                None
            }
        } else {
            None
        },
{
    if msg == WM_WTSSESSION_CHANGE {
        let code = wparam as u32;
        if code == WTS_SESSION_LOCK {
            Some(PowerEvent::Lock)
        } else if code == WTS_SESSION_UNLOCK {
            Some(PowerEvent::Unlock)
        } else {
            None
        }
    } else if msg == WM_POWERBROADCAST {
        if wparam == PBT_APMSUSPEND {
            Some(PowerEvent::Suspend)
        } else if wparam == PBT_APMRESUMESUSPEND {
            Some(PowerEvent::Resume)
        } else {
            None
        }
    } else {
        None
    }
}

} // verus!
