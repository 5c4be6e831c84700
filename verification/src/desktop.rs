//! Small desktop decisions: window titles, window styles, settings panes and the
//! "hide for a while" period.

use vstd::prelude::*;
use vstd::string::StringExecFns;
use crate::config::Platform;
use crate::text::{push_str, str_eq, trim, trimmed};

verus! {

/// `WS_EX_NOACTIVATE`: a window that never takes focus.
pub const WS_EX_NOACTIVATE: isize = 0x0800_0000;

/// `WS_EX_TOOLWINDOW`: a window left out of Alt-Tab.
pub const WS_EX_TOOLWINDOW: isize = 0x0000_0080;

/// The foreground app's title as reported: trimmed, and `None` when blank.
pub fn window_title(raw: &str) -> (title: Option<String>)
    ensures
        match title {
            Some(t) => trim(raw@).len() > 0 && t@ == trim(raw@),
            None => trim(raw@).len() == 0,
        },
{
    let t = trimmed(raw);
    if t.as_str().is_empty() {
        None
    } else {
        Some(t)
    }
}

/// The extended style that keeps the Flow Bar from taking focus: the current style
/// with `WS_EX_NOACTIVATE` and `WS_EX_TOOLWINDOW` added.
pub fn noactivate_style(current: isize) -> (style: isize)
    ensures
        style == current | 0x0800_0000isize | 0x80isize,
{
    current | WS_EX_NOACTIVATE | WS_EX_TOOLWINDOW
}

/// The System Settings privacy anchor for a pane name; anything unknown opens
/// Accessibility.
pub open spec fn privacy_anchor_text(pane: Seq<char>) -> Seq<char> {
    if pane == "microphone"@ {
        "Privacy_Microphone"@
    } else if pane == "input-monitoring"@ {
        "Privacy_ListenEvent"@
    } else if pane == "keyboard"@ {
        "keyboard"@
    } else {
        "Privacy_Accessibility"@
    }
}

/// The System Settings privacy anchor for `pane`.
pub fn privacy_anchor(pane: &str) -> (anchor: &'static str)
    ensures
        anchor@ == privacy_anchor_text(pane@),
{
    if str_eq(pane, "microphone") {
        "Privacy_Microphone"
    } else if str_eq(pane, "input-monitoring") {
        "Privacy_ListenEvent"
    } else if str_eq(pane, "keyboard") {
        "keyboard"
    } else {
        "Privacy_Accessibility"
    }
}

/// How many hours the Flow Bar hides for when asked for `hours`: at least one.
pub fn hide_hours(hours: u32) -> (h: u32)
    ensures
        h == (if hours < 1 { 1 } else { hours }),
{
    if hours < 1 {
        1
    } else {
        hours
    }
}

/// The name the settings screen shows for a platform.
pub open spec fn platform_name_text(platform: Platform) -> Seq<char> {
    match platform {
        Platform::MacOs => "macos"@,
        Platform::Windows => "windows"@,
        Platform::Other => "other"@,
    }
}

/// The name reported for `platform` in the permission status.
pub fn platform_name(platform: Platform) -> (name: &'static str)
    ensures
        name@ == platform_name_text(platform),
{
    match platform {
        Platform::MacOs => "macos",
        Platform::Windows => "windows",
        Platform::Other => "other",
    }
}

/// The microphone authorization as the UI names it, from the system's status code
/// (0 not determined, 1 restricted, 2 denied, 3 authorized).
pub open spec fn microphone_status_text(status: isize) -> Seq<char> {
    if status == 0 {
        "not-determined"@
    } else if status == 1 {
        "restricted"@
    } else if status == 2 {
        "denied"@
    } else if status == 3 {
        "granted"@
    } else {
        "unknown"@
    }
}

/// The name of microphone status code `status`; any other code is `unknown`.
pub fn microphone_status_name(status: isize) -> (name: &'static str)
    ensures
        name@ == microphone_status_text(status),
{
    if status == 0 {
        "not-determined"
    } else if status == 1 {
        "restricted"
    } else if status == 2 {
        "denied"
    } else if status == 3 {
        "granted"
    } else {
        "unknown"
    }
}

/// The System Settings URL that opens the pane with anchor `anchor`. Keyboard is a
/// settings extension of its own, not a pane of Privacy & Security.
pub open spec fn privacy_pane_url_text(anchor: Seq<char>) -> Seq<char> {
    if anchor == "keyboard"@ {
        "x-apple.systempreferences:com.apple.Keyboard-Settings.extension"@
    } else {
        "x-apple.systempreferences:com.apple.preference.security?"@ + anchor
    }
}

/// The URL that opens the System Settings pane for `anchor`.
pub fn privacy_pane_url(anchor: &str) -> (url: String)
    ensures
        url@ == privacy_pane_url_text(anchor@),
{
    if str_eq(anchor, "keyboard") {
        String::from_str("x-apple.systempreferences:com.apple.Keyboard-Settings.extension")
    } else {
        let mut url = String::from_str("x-apple.systempreferences:com.apple.preference.security?");
        push_str(&mut url, anchor);
        url
    }
}

/// The outcome of synthesizing a paste: every one of the `expected` keystrokes must
/// have been delivered, else the error `SendInput did not deliver all keystrokes`.
pub fn paste_outcome(sent: u32, expected: u32) -> (r: Result<(), String>)
    ensures
        sent == expected ==> r is Ok,
        sent != expected ==> r is Err && r->Err_0@ == "SendInput did not deliver all keystrokes"@,
{
    if sent == expected {
        Ok(())
    } else {
        Err(String::from_str("SendInput did not deliver all keystrokes"))
    }
}

} // verus!
