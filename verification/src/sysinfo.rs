//! The snapshot of collected telemetry and the small label decisions that
//! derive fields from raw values.

use vstd::prelude::*;
use crate::text::{eq_strs, contains_sub, spec_find_sub};

verus! {

/// One run's collected telemetry, assembled once and then only read.
pub struct SysInfo {
    pub hostname: String,
    pub os_name: String,
    pub kernel: String,
    pub uptime: u64,
    pub shell: String,
    pub terminal: String,
    pub de: String,
    pub wm: String,
    pub theme: String,
    pub icons: String,
    pub resolution: String,
    pub cpu_info: String,
    pub memory_used: u64,
    pub memory_total: u64,
}

/// The window-manager label read off the session type and desktop name:
/// only a Wayland session names one, Mutter under a GNOME desktop and KWin
/// under a KDE desktop.
pub open spec fn spec_wm_label(session: Seq<char>, de: Seq<char>) -> Seq<char> {
    if session == "wayland"@ {
        if spec_find_sub(de, "GNOME"@, 0) is Some {
            "Mutter"@
        } else if spec_find_sub(de, "KDE"@, 0) is Some {
            "KWin"@
        } else {
            "Unknown"@
        }
    } else {
        "Unknown"@
    }
}

/// Picks the window-manager label for a session type and desktop name.
pub fn wm_label(session_type: &str, de: &str) -> (r: &'static str)
    ensures
        r@ == spec_wm_label(session_type@, de@),
{
    if eq_strs(session_type, "wayland") {
        if contains_sub(de, "GNOME") {
            "Mutter"
        } else if contains_sub(de, "KDE") {
            "KWin"
        } else {
            "Unknown"
        }
    } else {
        "Unknown"
    }
}

/// The OS label: the distribution name for a Linux kernel, else the raw
/// kernel name, with the machine architecture appended either way.
pub open spec fn spec_os_label(sysname: Seq<char>, distro: Seq<char>, machine: Seq<char>) -> Seq<
    char,
> {
    if sysname == "Linux"@ {
        distro + " "@ + machine
    } else {
        sysname + " "@ + machine
    }
}

/// Builds the OS label from the kernel name, distribution name and machine
/// architecture.
pub fn os_label(sysname: &str, distro: &str, machine: &str) -> (r: String)
    ensures
        r@ == spec_os_label(sysname@, distro@, machine@),
{
    let mut s: String;
    if eq_strs(sysname, "Linux") {
        s = String::from_str(distro);
    } else {
        s = String::from_str(sysname);
    }
    s.append(" ");
    s.append(machine);
    s
}

} // verus!
