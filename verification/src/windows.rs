//! Decision logic of the Windows backend: the idle time from the tick
//! counters, the window title and the executable name read through Win32.
//! The Win32 calls themselves are made by the application around this
//! library.

use crate::text::{decode_utf16_lossy, rfind_char, utf16_lossy};
use vstd::prelude::*;
use vstd::string::*;

verus! {

/// The window in the foreground.
#[derive(Debug, Clone)]
pub struct ActiveWindow {
    pub title: String,
    pub process_name: String,
}

/// Milliseconds since the last input, from the current tick count and the
/// tick count of the last input. The 32-bit tick counter wraps after about
/// 49.7 days, so the difference is taken modulo 2^32.
pub fn idle_ms_since(now_ticks: u32, last_input_ticks: u32) -> (r: u64)
    ensures
        r == (now_ticks - last_input_ticks) % 0x1_0000_0000,
{
    if now_ticks >= last_input_ticks {
        (now_ticks - last_input_ticks) as u64
    } else {
        let back: u64 = (last_input_ticks - now_ticks) as u64;
        proof {
            assert((now_ticks - last_input_ticks) % 0x1_0000_0000 == 0x1_0000_0000 - back) by {
                vstd::arithmetic::div_mod::lemma_fundamental_div_mod_converse(
                    now_ticks - last_input_ticks,
                    0x1_0000_0000,
                    -1,
                    0x1_0000_0000 - back,
                );
            }
        }
        0x1_0000_0000u64 - back
    }
}

/// The title that `GetWindowTextW` wrote into `buf`: the first `read` units,
/// decoded; empty when nothing was read.
pub fn window_title(buf: &[u16], read: i32) -> (r: String)
    requires
        read <= buf@.len(),
    ensures
        read > 0 ==> r@ == utf16_lossy(buf@.subrange(0, read as int)),
        read <= 0 ==> r@ == Seq::<char>::empty(),
{
    if read > 0 {
        let n = read as usize;
        let mut units: Vec<u16> = Vec::new();
        for i in 0..n
            invariant
                n == read,
                n <= buf@.len(),
                units@ == buf@.subrange(0, i as int),
        {
            units.push(buf[i]);
            proof {
                assert(units@ =~= buf@.subrange(0, i + 1));
            }
        }
        decode_utf16_lossy(units.as_slice())
    } else {
        String::new()
    }
}

/// The executable name after the last `\` of a full path (the whole path
/// when it holds none).
pub open spec fn file_name_of(full: Seq<char>) -> Seq<char> {
    if full.contains('\\') {
        let i = choose|i: int| 0 <= i < full.len() && full[i] == '\\' && forall|k: int| i < k < full.len() ==> full[k] != '\\';
        full.subrange(i + 1, full.len() as int)
    } else {
        full
    }
}

/// The executable name within a module path.
pub fn exe_name_from_path(full: &str) -> (r: String)
    ensures
        r@ == file_name_of(full@),
{
    let n = full.unicode_len();
    match rfind_char(full, '\\') {
        Some(i) => {
            proof {
                assert(full@.contains('\\'));
                let j = choose|j: int| 0 <= j < full@.len() && full@[j] == '\\' && forall|k: int| j < k < full@.len() ==> full@[k] != '\\';
                assert(j == i);
            }
            String::from_str(full.substring_char(i + 1, n))
        },
        None => {
            proof {
                assert(!full@.contains('\\'));
                assert(full@.subrange(0, full@.len() as int) =~= full@);
            }
            String::from_str(full.substring_char(0, n))
        },
    }
}

/// The executable name that `GetModuleBaseNameW` wrote into `buf`: its
/// first `len` units, decoded; none when it wrote nothing.
pub fn module_name(buf: &[u16], len: u32) -> (r: Option<String>)
    requires
        len <= buf@.len(),
    ensures
        len == 0 ==> r is None,
        len > 0 ==> r is Some && r.unwrap()@ == utf16_lossy(buf@.subrange(0, len as int)),
{
    if len == 0 {
        None
    } else {
        let n = len as usize;
        let mut units: Vec<u16> = Vec::new();
        for i in 0..n
            invariant
                n == len,
                n <= buf@.len(),
                units@ == buf@.subrange(0, i as int),
        {
            units.push(buf[i]);
            proof {
                assert(units@ =~= buf@.subrange(0, i + 1));
            }
        }
        Some(decode_utf16_lossy(units.as_slice()))
    }
}

/// The foreground window of process `pid`: none for PID 0, and an empty
/// process name when it could not be read.
pub fn window_of_process(title: String, pid: u32, process_name: Option<String>) -> (r: Option<ActiveWindow>)
    ensures
        pid == 0 ==> r is None,
        pid != 0 ==> r is Some && r.unwrap().title == title && r.unwrap().process_name@ == match process_name {
            Some(n) => n@,
            None => Seq::empty(),
        },
{
    if pid == 0 {
        None
    } else {
        let process_name = match process_name {
            Some(n) => n,
            None => String::new(),
        };
        Some(ActiveWindow { title, process_name })
    }
}

} // verus!
