//! Metadata for every portal method: the interface it belongs to, whether
//! it returns a request object path, and where its `options` argument is.
//! Entries of one interface are contiguous, in the interfaces' document
//! order.

use vstd::prelude::*;
use crate::header_map::str_eq;

verus! {

/// What is known about one portal method.
#[derive(Debug, Clone, Copy, PartialEq, Eq)]
pub struct MethodInfo {
    /// Full D-Bus interface name the method belongs to.
    pub interface: &'static str,
    /// Name of the method.
    pub method: &'static str,
    /// Whether the method returns a request object path (an `out` argument
    /// named `handle` or `request_handle` of type `o`).
    pub uses_request: bool,
    /// Zero-based index of the `options` argument (`a{sv}`, `in`) counting
    /// every argument of the method, or `-1` when the method takes no
    /// options.
    pub option_arg: i32,
}

/// The method table.
pub open spec fn method_table() -> Seq<MethodInfo> {
    Seq::empty()
        .push(MethodInfo { interface: "org.freedesktop.portal.Account", method: "GetUserInformation", uses_request: true, option_arg: 1 })
        .push(MethodInfo { interface: "org.freedesktop.portal.Background", method: "RequestBackground", uses_request: true, option_arg: 1 })
        .push(MethodInfo { interface: "org.freedesktop.portal.Background", method: "SetStatus", uses_request: false, option_arg: 0 })
        .push(MethodInfo { interface: "org.freedesktop.portal.Camera", method: "AccessCamera", uses_request: true, option_arg: 0 })
        .push(MethodInfo { interface: "org.freedesktop.portal.Camera", method: "OpenPipeWireRemote", uses_request: false, option_arg: 0 })
        .push(MethodInfo { interface: "org.freedesktop.portal.Clipboard", method: "RequestClipboard", uses_request: false, option_arg: 1 })
        .push(MethodInfo { interface: "org.freedesktop.portal.Clipboard", method: "SetSelection", uses_request: false, option_arg: 1 })
        .push(MethodInfo { interface: "org.freedesktop.portal.Clipboard", method: "SelectionWrite", uses_request: false, option_arg: -1i32 })
        .push(MethodInfo { interface: "org.freedesktop.portal.Clipboard", method: "SelectionWriteDone", uses_request: false, option_arg: -1i32 })
        .push(MethodInfo { interface: "org.freedesktop.portal.Clipboard", method: "SelectionRead", uses_request: false, option_arg: -1i32 })
        .push(MethodInfo { interface: "org.freedesktop.portal.Documents", method: "GetMountPoint", uses_request: false, option_arg: -1i32 })
        .push(MethodInfo { interface: "org.freedesktop.portal.Documents", method: "Add", uses_request: false, option_arg: -1i32 })
        .push(MethodInfo { interface: "org.freedesktop.portal.Documents", method: "AddNamed", uses_request: false, option_arg: -1i32 })
        .push(MethodInfo { interface: "org.freedesktop.portal.Documents", method: "AddFull", uses_request: false, option_arg: -1i32 })
        .push(MethodInfo { interface: "org.freedesktop.portal.Documents", method: "AddNamedFull", uses_request: false, option_arg: -1i32 })
        .push(MethodInfo { interface: "org.freedesktop.portal.Documents", method: "GrantPermissions", uses_request: false, option_arg: -1i32 })
        .push(MethodInfo { interface: "org.freedesktop.portal.Documents", method: "RevokePermissions", uses_request: false, option_arg: -1i32 })
        .push(MethodInfo { interface: "org.freedesktop.portal.Documents", method: "Delete", uses_request: false, option_arg: -1i32 })
        .push(MethodInfo { interface: "org.freedesktop.portal.Documents", method: "Lookup", uses_request: false, option_arg: -1i32 })
        .push(MethodInfo { interface: "org.freedesktop.portal.Documents", method: "Info", uses_request: false, option_arg: -1i32 })
        .push(MethodInfo { interface: "org.freedesktop.portal.Documents", method: "List", uses_request: false, option_arg: -1i32 })
        .push(MethodInfo { interface: "org.freedesktop.portal.Documents", method: "GetHostPaths", uses_request: false, option_arg: -1i32 })
        .push(MethodInfo { interface: "org.freedesktop.portal.DynamicLauncher", method: "Install", uses_request: false, option_arg: 3 })
        .push(MethodInfo { interface: "org.freedesktop.portal.DynamicLauncher", method: "PrepareInstall", uses_request: true, option_arg: 3 })
        .push(MethodInfo { interface: "org.freedesktop.portal.DynamicLauncher", method: "RequestInstallToken", uses_request: false, option_arg: 2 })
        .push(MethodInfo { interface: "org.freedesktop.portal.DynamicLauncher", method: "Uninstall", uses_request: false, option_arg: 1 })
        .push(MethodInfo { interface: "org.freedesktop.portal.DynamicLauncher", method: "GetDesktopEntry", uses_request: false, option_arg: -1i32 })
        .push(MethodInfo { interface: "org.freedesktop.portal.DynamicLauncher", method: "GetIcon", uses_request: false, option_arg: -1i32 })
        .push(MethodInfo { interface: "org.freedesktop.portal.DynamicLauncher", method: "Launch", uses_request: false, option_arg: 1 })
        .push(MethodInfo { interface: "org.freedesktop.portal.Email", method: "ComposeEmail", uses_request: true, option_arg: 1 })
        .push(MethodInfo { interface: "org.freedesktop.portal.FileChooser", method: "OpenFile", uses_request: true, option_arg: 2 })
        .push(MethodInfo { interface: "org.freedesktop.portal.FileChooser", method: "SaveFile", uses_request: true, option_arg: 2 })
        .push(MethodInfo { interface: "org.freedesktop.portal.FileChooser", method: "SaveFiles", uses_request: true, option_arg: 2 })
        .push(MethodInfo { interface: "org.freedesktop.portal.FileTransfer", method: "StartTransfer", uses_request: false, option_arg: 0 })
        .push(MethodInfo { interface: "org.freedesktop.portal.FileTransfer", method: "AddFiles", uses_request: false, option_arg: 2 })
        .push(MethodInfo { interface: "org.freedesktop.portal.FileTransfer", method: "RetrieveFiles", uses_request: false, option_arg: 1 })
        .push(MethodInfo { interface: "org.freedesktop.portal.FileTransfer", method: "StopTransfer", uses_request: false, option_arg: -1i32 })
        .push(MethodInfo { interface: "org.freedesktop.portal.GameMode", method: "QueryStatus", uses_request: false, option_arg: -1i32 })
        .push(MethodInfo { interface: "org.freedesktop.portal.GameMode", method: "RegisterGame", uses_request: false, option_arg: -1i32 })
        .push(MethodInfo { interface: "org.freedesktop.portal.GameMode", method: "UnregisterGame", uses_request: false, option_arg: -1i32 })
        .push(MethodInfo { interface: "org.freedesktop.portal.GameMode", method: "QueryStatusByPid", uses_request: false, option_arg: -1i32 })
        .push(MethodInfo { interface: "org.freedesktop.portal.GameMode", method: "RegisterGameByPid", uses_request: false, option_arg: -1i32 })
        .push(MethodInfo { interface: "org.freedesktop.portal.GameMode", method: "UnregisterGameByPid", uses_request: false, option_arg: -1i32 })
        .push(MethodInfo { interface: "org.freedesktop.portal.GameMode", method: "QueryStatusByPIDFd", uses_request: false, option_arg: -1i32 })
        .push(MethodInfo { interface: "org.freedesktop.portal.GameMode", method: "RegisterGameByPIDFd", uses_request: false, option_arg: -1i32 })
        .push(MethodInfo { interface: "org.freedesktop.portal.GameMode", method: "UnregisterGameByPIDFd", uses_request: false, option_arg: -1i32 })
        .push(MethodInfo { interface: "org.freedesktop.portal.GlobalShortcuts", method: "CreateSession", uses_request: true, option_arg: 0 })
        .push(MethodInfo { interface: "org.freedesktop.portal.GlobalShortcuts", method: "BindShortcuts", uses_request: true, option_arg: 3 })
        .push(MethodInfo { interface: "org.freedesktop.portal.GlobalShortcuts", method: "ListShortcuts", uses_request: true, option_arg: 1 })
        .push(MethodInfo { interface: "org.freedesktop.portal.GlobalShortcuts", method: "ConfigureShortcuts", uses_request: false, option_arg: 2 })
        .push(MethodInfo { interface: "org.freedesktop.portal.Inhibit", method: "Inhibit", uses_request: true, option_arg: 2 })
        .push(MethodInfo { interface: "org.freedesktop.portal.Inhibit", method: "CreateMonitor", uses_request: true, option_arg: 1 })
        .push(MethodInfo { interface: "org.freedesktop.portal.Inhibit", method: "QueryEndResponse", uses_request: false, option_arg: -1i32 })
        .push(MethodInfo { interface: "org.freedesktop.portal.InputCapture", method: "CreateSession", uses_request: true, option_arg: 1 })
        .push(MethodInfo { interface: "org.freedesktop.portal.InputCapture", method: "CreateSession2", uses_request: false, option_arg: 0 })
        .push(MethodInfo { interface: "org.freedesktop.portal.InputCapture", method: "Start", uses_request: true, option_arg: 2 })
        .push(MethodInfo { interface: "org.freedesktop.portal.InputCapture", method: "GetZones", uses_request: true, option_arg: 1 })
        .push(MethodInfo { interface: "org.freedesktop.portal.InputCapture", method: "SetPointerBarriers", uses_request: true, option_arg: 1 })
        .push(MethodInfo { interface: "org.freedesktop.portal.InputCapture", method: "Enable", uses_request: false, option_arg: 1 })
        .push(MethodInfo { interface: "org.freedesktop.portal.InputCapture", method: "Disable", uses_request: false, option_arg: 1 })
        .push(MethodInfo { interface: "org.freedesktop.portal.InputCapture", method: "Release", uses_request: false, option_arg: 1 })
        .push(MethodInfo { interface: "org.freedesktop.portal.InputCapture", method: "ConnectToEIS", uses_request: false, option_arg: 1 })
        .push(MethodInfo { interface: "org.freedesktop.portal.Location", method: "CreateSession", uses_request: true, option_arg: 0 })
        .push(MethodInfo { interface: "org.freedesktop.portal.Location", method: "Start", uses_request: true, option_arg: 2 })
        .push(MethodInfo { interface: "org.freedesktop.portal.NetworkMonitor", method: "GetAvailable", uses_request: false, option_arg: -1i32 })
        .push(MethodInfo { interface: "org.freedesktop.portal.NetworkMonitor", method: "GetMetered", uses_request: false, option_arg: -1i32 })
        .push(MethodInfo { interface: "org.freedesktop.portal.NetworkMonitor", method: "GetConnectivity", uses_request: false, option_arg: -1i32 })
        .push(MethodInfo { interface: "org.freedesktop.portal.NetworkMonitor", method: "GetStatus", uses_request: false, option_arg: -1i32 })
        .push(MethodInfo { interface: "org.freedesktop.portal.NetworkMonitor", method: "CanReach", uses_request: false, option_arg: -1i32 })
        .push(MethodInfo { interface: "org.freedesktop.portal.Notification", method: "AddNotification", uses_request: false, option_arg: -1i32 })
        .push(MethodInfo { interface: "org.freedesktop.portal.Notification", method: "RemoveNotification", uses_request: false, option_arg: -1i32 })
        .push(MethodInfo { interface: "org.freedesktop.portal.OpenURI", method: "OpenURI", uses_request: true, option_arg: 2 })
        .push(MethodInfo { interface: "org.freedesktop.portal.OpenURI", method: "OpenFile", uses_request: true, option_arg: 2 })
        .push(MethodInfo { interface: "org.freedesktop.portal.OpenURI", method: "OpenDirectory", uses_request: true, option_arg: 2 })
        .push(MethodInfo { interface: "org.freedesktop.portal.OpenURI", method: "SchemeSupported", uses_request: false, option_arg: 1 })
        .push(MethodInfo { interface: "org.freedesktop.portal.Print", method: "PreparePrint", uses_request: true, option_arg: 4 })
        .push(MethodInfo { interface: "org.freedesktop.portal.Print", method: "Print", uses_request: true, option_arg: 3 })
        .push(MethodInfo { interface: "org.freedesktop.portal.ProxyResolver", method: "Lookup", uses_request: false, option_arg: -1i32 })
        .push(MethodInfo { interface: "org.freedesktop.portal.Realtime", method: "MakeThreadRealtimeWithPID", uses_request: false, option_arg: -1i32 })
        .push(MethodInfo { interface: "org.freedesktop.portal.Realtime", method: "MakeThreadHighPriorityWithPID", uses_request: false, option_arg: -1i32 })
        .push(MethodInfo { interface: "org.freedesktop.portal.RemoteDesktop", method: "CreateSession", uses_request: true, option_arg: 0 })
        .push(MethodInfo { interface: "org.freedesktop.portal.RemoteDesktop", method: "SelectDevices", uses_request: true, option_arg: 1 })
        .push(MethodInfo { interface: "org.freedesktop.portal.RemoteDesktop", method: "Start", uses_request: true, option_arg: 2 })
        .push(MethodInfo { interface: "org.freedesktop.portal.RemoteDesktop", method: "NotifyPointerMotion", uses_request: false, option_arg: 1 })
        .push(MethodInfo { interface: "org.freedesktop.portal.RemoteDesktop", method: "NotifyPointerMotionAbsolute", uses_request: false, option_arg: 1 })
        .push(MethodInfo { interface: "org.freedesktop.portal.RemoteDesktop", method: "NotifyPointerButton", uses_request: false, option_arg: 1 })
        .push(MethodInfo { interface: "org.freedesktop.portal.RemoteDesktop", method: "NotifyPointerAxis", uses_request: false, option_arg: 1 })
        .push(MethodInfo { interface: "org.freedesktop.portal.RemoteDesktop", method: "NotifyPointerAxisDiscrete", uses_request: false, option_arg: 1 })
        .push(MethodInfo { interface: "org.freedesktop.portal.RemoteDesktop", method: "NotifyKeyboardKeycode", uses_request: false, option_arg: 1 })
        .push(MethodInfo { interface: "org.freedesktop.portal.RemoteDesktop", method: "NotifyKeyboardKeysym", uses_request: false, option_arg: 1 })
        .push(MethodInfo { interface: "org.freedesktop.portal.RemoteDesktop", method: "NotifyTouchDown", uses_request: false, option_arg: 1 })
        .push(MethodInfo { interface: "org.freedesktop.portal.RemoteDesktop", method: "NotifyTouchMotion", uses_request: false, option_arg: 1 })
        .push(MethodInfo { interface: "org.freedesktop.portal.RemoteDesktop", method: "NotifyTouchUp", uses_request: false, option_arg: 1 })
        .push(MethodInfo { interface: "org.freedesktop.portal.RemoteDesktop", method: "ConnectToEIS", uses_request: false, option_arg: 1 })
        .push(MethodInfo { interface: "org.freedesktop.portal.Request", method: "Close", uses_request: false, option_arg: -1i32 })
        .push(MethodInfo { interface: "org.freedesktop.portal.ScreenCast", method: "CreateSession", uses_request: true, option_arg: 0 })
        .push(MethodInfo { interface: "org.freedesktop.portal.ScreenCast", method: "SelectSources", uses_request: true, option_arg: 1 })
        .push(MethodInfo { interface: "org.freedesktop.portal.ScreenCast", method: "Start", uses_request: true, option_arg: 2 })
        .push(MethodInfo { interface: "org.freedesktop.portal.ScreenCast", method: "OpenPipeWireRemote", uses_request: false, option_arg: 1 })
        .push(MethodInfo { interface: "org.freedesktop.portal.Screenshot", method: "Screenshot", uses_request: true, option_arg: 1 })
        .push(MethodInfo { interface: "org.freedesktop.portal.Screenshot", method: "PickColor", uses_request: true, option_arg: 1 })
        .push(MethodInfo { interface: "org.freedesktop.portal.Secret", method: "RetrieveSecret", uses_request: true, option_arg: 1 })
        .push(MethodInfo { interface: "org.freedesktop.portal.Session", method: "Close", uses_request: false, option_arg: -1i32 })
        .push(MethodInfo { interface: "org.freedesktop.portal.Settings", method: "ReadAll", uses_request: false, option_arg: -1i32 })
        .push(MethodInfo { interface: "org.freedesktop.portal.Settings", method: "Read", uses_request: false, option_arg: -1i32 })
        .push(MethodInfo { interface: "org.freedesktop.portal.Settings", method: "ReadOne", uses_request: false, option_arg: -1i32 })
        .push(MethodInfo { interface: "org.freedesktop.portal.Trash", method: "TrashFile", uses_request: false, option_arg: -1i32 })
        .push(MethodInfo { interface: "org.freedesktop.portal.Usb", method: "CreateSession", uses_request: false, option_arg: 0 })
        .push(MethodInfo { interface: "org.freedesktop.portal.Usb", method: "EnumerateDevices", uses_request: false, option_arg: 0 })
        .push(MethodInfo { interface: "org.freedesktop.portal.Usb", method: "AcquireDevices", uses_request: true, option_arg: 2 })
        .push(MethodInfo { interface: "org.freedesktop.portal.Usb", method: "FinishAcquireDevices", uses_request: false, option_arg: 1 })
        .push(MethodInfo { interface: "org.freedesktop.portal.Usb", method: "ReleaseDevices", uses_request: false, option_arg: 1 })
        .push(MethodInfo { interface: "org.freedesktop.portal.Wallpaper", method: "SetWallpaperURI", uses_request: true, option_arg: 2 })
        .push(MethodInfo { interface: "org.freedesktop.portal.Wallpaper", method: "SetWallpaperFile", uses_request: true, option_arg: 2 })
        .push(MethodInfo { interface: "org.freedesktop.host.portal.Registry", method: "Register", uses_request: false, option_arg: 1 })
}

/// Scanning `t` from `i` for `method` of `interface`, with `seen` telling
/// whether an entry of `interface` was met: the scan stops at the first
/// entry of another interface once the interface's entries have been
/// passed.
pub open spec fn scan(t: Seq<MethodInfo>, i: int, seen: bool, interface: Seq<char>, method: Seq<char>) -> Option<MethodInfo>
    decreases t.len() - i,
{
    if i < 0 || i >= t.len() {
        None
    } else if t[i].interface@ == interface {
        if t[i].method@ == method {
            Some(t[i])
        } else {
            scan(t, i + 1, true, interface, method)
        }
    } else if seen {
        None
    } else {
        scan(t, i + 1, false, interface, method)
    }
}

/// Every method of the table, in order.
pub fn all() -> (r: Vec<MethodInfo>)
    ensures
        r@ == method_table(),
{
    let mut v: Vec<MethodInfo> = Vec::new();
    v.push(MethodInfo { interface: "org.freedesktop.portal.Account", method: "GetUserInformation", uses_request: true, option_arg: 1 });
    v.push(MethodInfo { interface: "org.freedesktop.portal.Background", method: "RequestBackground", uses_request: true, option_arg: 1 });
    v.push(MethodInfo { interface: "org.freedesktop.portal.Background", method: "SetStatus", uses_request: false, option_arg: 0 });
    v.push(MethodInfo { interface: "org.freedesktop.portal.Camera", method: "AccessCamera", uses_request: true, option_arg: 0 });
    v.push(MethodInfo { interface: "org.freedesktop.portal.Camera", method: "OpenPipeWireRemote", uses_request: false, option_arg: 0 });
    v.push(MethodInfo { interface: "org.freedesktop.portal.Clipboard", method: "RequestClipboard", uses_request: false, option_arg: 1 });
    v.push(MethodInfo { interface: "org.freedesktop.portal.Clipboard", method: "SetSelection", uses_request: false, option_arg: 1 });
    v.push(MethodInfo { interface: "org.freedesktop.portal.Clipboard", method: "SelectionWrite", uses_request: false, option_arg: -1 });
    v.push(MethodInfo { interface: "org.freedesktop.portal.Clipboard", method: "SelectionWriteDone", uses_request: false, option_arg: -1 });
    v.push(MethodInfo { interface: "org.freedesktop.portal.Clipboard", method: "SelectionRead", uses_request: false, option_arg: -1 });
    v.push(MethodInfo { interface: "org.freedesktop.portal.Documents", method: "GetMountPoint", uses_request: false, option_arg: -1 });
    v.push(MethodInfo { interface: "org.freedesktop.portal.Documents", method: "Add", uses_request: false, option_arg: -1 });
    v.push(MethodInfo { interface: "org.freedesktop.portal.Documents", method: "AddNamed", uses_request: false, option_arg: -1 });
    v.push(MethodInfo { interface: "org.freedesktop.portal.Documents", method: "AddFull", uses_request: false, option_arg: -1 });
    v.push(MethodInfo { interface: "org.freedesktop.portal.Documents", method: "AddNamedFull", uses_request: false, option_arg: -1 });
    v.push(MethodInfo { interface: "org.freedesktop.portal.Documents", method: "GrantPermissions", uses_request: false, option_arg: -1 });
    v.push(MethodInfo { interface: "org.freedesktop.portal.Documents", method: "RevokePermissions", uses_request: false, option_arg: -1 });
    v.push(MethodInfo { interface: "org.freedesktop.portal.Documents", method: "Delete", uses_request: false, option_arg: -1 });
    v.push(MethodInfo { interface: "org.freedesktop.portal.Documents", method: "Lookup", uses_request: false, option_arg: -1 });
    v.push(MethodInfo { interface: "org.freedesktop.portal.Documents", method: "Info", uses_request: false, option_arg: -1 });
    v.push(MethodInfo { interface: "org.freedesktop.portal.Documents", method: "List", uses_request: false, option_arg: -1 });
    v.push(MethodInfo { interface: "org.freedesktop.portal.Documents", method: "GetHostPaths", uses_request: false, option_arg: -1 });
    v.push(MethodInfo { interface: "org.freedesktop.portal.DynamicLauncher", method: "Install", uses_request: false, option_arg: 3 });
    v.push(MethodInfo { interface: "org.freedesktop.portal.DynamicLauncher", method: "PrepareInstall", uses_request: true, option_arg: 3 });
    v.push(MethodInfo { interface: "org.freedesktop.portal.DynamicLauncher", method: "RequestInstallToken", uses_request: false, option_arg: 2 });
    v.push(MethodInfo { interface: "org.freedesktop.portal.DynamicLauncher", method: "Uninstall", uses_request: false, option_arg: 1 });
    v.push(MethodInfo { interface: "org.freedesktop.portal.DynamicLauncher", method: "GetDesktopEntry", uses_request: false, option_arg: -1 });
    v.push(MethodInfo { interface: "org.freedesktop.portal.DynamicLauncher", method: "GetIcon", uses_request: false, option_arg: -1 });
    v.push(MethodInfo { interface: "org.freedesktop.portal.DynamicLauncher", method: "Launch", uses_request: false, option_arg: 1 });
    v.push(MethodInfo { interface: "org.freedesktop.portal.Email", method: "ComposeEmail", uses_request: true, option_arg: 1 });
    v.push(MethodInfo { interface: "org.freedesktop.portal.FileChooser", method: "OpenFile", uses_request: true, option_arg: 2 });
    v.push(MethodInfo { interface: "org.freedesktop.portal.FileChooser", method: "SaveFile", uses_request: true, option_arg: 2 });
    v.push(MethodInfo { interface: "org.freedesktop.portal.FileChooser", method: "SaveFiles", uses_request: true, option_arg: 2 });
    v.push(MethodInfo { interface: "org.freedesktop.portal.FileTransfer", method: "StartTransfer", uses_request: false, option_arg: 0 });
    v.push(MethodInfo { interface: "org.freedesktop.portal.FileTransfer", method: "AddFiles", uses_request: false, option_arg: 2 });
    v.push(MethodInfo { interface: "org.freedesktop.portal.FileTransfer", method: "RetrieveFiles", uses_request: false, option_arg: 1 });
    v.push(MethodInfo { interface: "org.freedesktop.portal.FileTransfer", method: "StopTransfer", uses_request: false, option_arg: -1 });
    v.push(MethodInfo { interface: "org.freedesktop.portal.GameMode", method: "QueryStatus", uses_request: false, option_arg: -1 });
    v.push(MethodInfo { interface: "org.freedesktop.portal.GameMode", method: "RegisterGame", uses_request: false, option_arg: -1 });
    v.push(MethodInfo { interface: "org.freedesktop.portal.GameMode", method: "UnregisterGame", uses_request: false, option_arg: -1 });
    v.push(MethodInfo { interface: "org.freedesktop.portal.GameMode", method: "QueryStatusByPid", uses_request: false, option_arg: -1 });
    v.push(MethodInfo { interface: "org.freedesktop.portal.GameMode", method: "RegisterGameByPid", uses_request: false, option_arg: -1 });
    v.push(MethodInfo { interface: "org.freedesktop.portal.GameMode", method: "UnregisterGameByPid", uses_request: false, option_arg: -1 });
    v.push(MethodInfo { interface: "org.freedesktop.portal.GameMode", method: "QueryStatusByPIDFd", uses_request: false, option_arg: -1 });
    v.push(MethodInfo { interface: "org.freedesktop.portal.GameMode", method: "RegisterGameByPIDFd", uses_request: false, option_arg: -1 });
    v.push(MethodInfo { interface: "org.freedesktop.portal.GameMode", method: "UnregisterGameByPIDFd", uses_request: false, option_arg: -1 });
    v.push(MethodInfo { interface: "org.freedesktop.portal.GlobalShortcuts", method: "CreateSession", uses_request: true, option_arg: 0 });
    v.push(MethodInfo { interface: "org.freedesktop.portal.GlobalShortcuts", method: "BindShortcuts", uses_request: true, option_arg: 3 });
    v.push(MethodInfo { interface: "org.freedesktop.portal.GlobalShortcuts", method: "ListShortcuts", uses_request: true, option_arg: 1 });
    v.push(MethodInfo { interface: "org.freedesktop.portal.GlobalShortcuts", method: "ConfigureShortcuts", uses_request: false, option_arg: 2 });
    v.push(MethodInfo { interface: "org.freedesktop.portal.Inhibit", method: "Inhibit", uses_request: true, option_arg: 2 });
    v.push(MethodInfo { interface: "org.freedesktop.portal.Inhibit", method: "CreateMonitor", uses_request: true, option_arg: 1 });
    v.push(MethodInfo { interface: "org.freedesktop.portal.Inhibit", method: "QueryEndResponse", uses_request: false, option_arg: -1 });
    v.push(MethodInfo { interface: "org.freedesktop.portal.InputCapture", method: "CreateSession", uses_request: true, option_arg: 1 });
    v.push(MethodInfo { interface: "org.freedesktop.portal.InputCapture", method: "CreateSession2", uses_request: false, option_arg: 0 });
    v.push(MethodInfo { interface: "org.freedesktop.portal.InputCapture", method: "Start", uses_request: true, option_arg: 2 });
    v.push(MethodInfo { interface: "org.freedesktop.portal.InputCapture", method: "GetZones", uses_request: true, option_arg: 1 });
    v.push(MethodInfo { interface: "org.freedesktop.portal.InputCapture", method: "SetPointerBarriers", uses_request: true, option_arg: 1 });
    v.push(MethodInfo { interface: "org.freedesktop.portal.InputCapture", method: "Enable", uses_request: false, option_arg: 1 });
    v.push(MethodInfo { interface: "org.freedesktop.portal.InputCapture", method: "Disable", uses_request: false, option_arg: 1 });
    v.push(MethodInfo { interface: "org.freedesktop.portal.InputCapture", method: "Release", uses_request: false, option_arg: 1 });
    v.push(MethodInfo { interface: "org.freedesktop.portal.InputCapture", method: "ConnectToEIS", uses_request: false, option_arg: 1 });
    v.push(MethodInfo { interface: "org.freedesktop.portal.Location", method: "CreateSession", uses_request: true, option_arg: 0 });
    v.push(MethodInfo { interface: "org.freedesktop.portal.Location", method: "Start", uses_request: true, option_arg: 2 });
    v.push(MethodInfo { interface: "org.freedesktop.portal.NetworkMonitor", method: "GetAvailable", uses_request: false, option_arg: -1 });
    v.push(MethodInfo { interface: "org.freedesktop.portal.NetworkMonitor", method: "GetMetered", uses_request: false, option_arg: -1 });
    v.push(MethodInfo { interface: "org.freedesktop.portal.NetworkMonitor", method: "GetConnectivity", uses_request: false, option_arg: -1 });
    v.push(MethodInfo { interface: "org.freedesktop.portal.NetworkMonitor", method: "GetStatus", uses_request: false, option_arg: -1 });
    v.push(MethodInfo { interface: "org.freedesktop.portal.NetworkMonitor", method: "CanReach", uses_request: false, option_arg: -1 });
    v.push(MethodInfo { interface: "org.freedesktop.portal.Notification", method: "AddNotification", uses_request: false, option_arg: -1 });
    v.push(MethodInfo { interface: "org.freedesktop.portal.Notification", method: "RemoveNotification", uses_request: false, option_arg: -1 });
    v.push(MethodInfo { interface: "org.freedesktop.portal.OpenURI", method: "OpenURI", uses_request: true, option_arg: 2 });
    v.push(MethodInfo { interface: "org.freedesktop.portal.OpenURI", method: "OpenFile", uses_request: true, option_arg: 2 });
    v.push(MethodInfo { interface: "org.freedesktop.portal.OpenURI", method: "OpenDirectory", uses_request: true, option_arg: 2 });
    v.push(MethodInfo { interface: "org.freedesktop.portal.OpenURI", method: "SchemeSupported", uses_request: false, option_arg: 1 });
    v.push(MethodInfo { interface: "org.freedesktop.portal.Print", method: "PreparePrint", uses_request: true, option_arg: 4 });
    v.push(MethodInfo { interface: "org.freedesktop.portal.Print", method: "Print", uses_request: true, option_arg: 3 });
    v.push(MethodInfo { interface: "org.freedesktop.portal.ProxyResolver", method: "Lookup", uses_request: false, option_arg: -1 });
    v.push(MethodInfo { interface: "org.freedesktop.portal.Realtime", method: "MakeThreadRealtimeWithPID", uses_request: false, option_arg: -1 });
    v.push(MethodInfo { interface: "org.freedesktop.portal.Realtime", method: "MakeThreadHighPriorityWithPID", uses_request: false, option_arg: -1 });
    v.push(MethodInfo { interface: "org.freedesktop.portal.RemoteDesktop", method: "CreateSession", uses_request: true, option_arg: 0 });
    v.push(MethodInfo { interface: "org.freedesktop.portal.RemoteDesktop", method: "SelectDevices", uses_request: true, option_arg: 1 });
    v.push(MethodInfo { interface: "org.freedesktop.portal.RemoteDesktop", method: "Start", uses_request: true, option_arg: 2 });
    v.push(MethodInfo { interface: "org.freedesktop.portal.RemoteDesktop", method: "NotifyPointerMotion", uses_request: false, option_arg: 1 });
    v.push(MethodInfo { interface: "org.freedesktop.portal.RemoteDesktop", method: "NotifyPointerMotionAbsolute", uses_request: false, option_arg: 1 });
    v.push(MethodInfo { interface: "org.freedesktop.portal.RemoteDesktop", method: "NotifyPointerButton", uses_request: false, option_arg: 1 });
    v.push(MethodInfo { interface: "org.freedesktop.portal.RemoteDesktop", method: "NotifyPointerAxis", uses_request: false, option_arg: 1 });
    v.push(MethodInfo { interface: "org.freedesktop.portal.RemoteDesktop", method: "NotifyPointerAxisDiscrete", uses_request: false, option_arg: 1 });
    v.push(MethodInfo { interface: "org.freedesktop.portal.RemoteDesktop", method: "NotifyKeyboardKeycode", uses_request: false, option_arg: 1 });
    v.push(MethodInfo { interface: "org.freedesktop.portal.RemoteDesktop", method: "NotifyKeyboardKeysym", uses_request: false, option_arg: 1 });
    v.push(MethodInfo { interface: "org.freedesktop.portal.RemoteDesktop", method: "NotifyTouchDown", uses_request: false, option_arg: 1 });
    v.push(MethodInfo { interface: "org.freedesktop.portal.RemoteDesktop", method: "NotifyTouchMotion", uses_request: false, option_arg: 1 });
    v.push(MethodInfo { interface: "org.freedesktop.portal.RemoteDesktop", method: "NotifyTouchUp", uses_request: false, option_arg: 1 });
    v.push(MethodInfo { interface: "org.freedesktop.portal.RemoteDesktop", method: "ConnectToEIS", uses_request: false, option_arg: 1 });
    v.push(MethodInfo { interface: "org.freedesktop.portal.Request", method: "Close", uses_request: false, option_arg: -1 });
    v.push(MethodInfo { interface: "org.freedesktop.portal.ScreenCast", method: "CreateSession", uses_request: true, option_arg: 0 });
    v.push(MethodInfo { interface: "org.freedesktop.portal.ScreenCast", method: "SelectSources", uses_request: true, option_arg: 1 });
    v.push(MethodInfo { interface: "org.freedesktop.portal.ScreenCast", method: "Start", uses_request: true, option_arg: 2 });
    v.push(MethodInfo { interface: "org.freedesktop.portal.ScreenCast", method: "OpenPipeWireRemote", uses_request: false, option_arg: 1 });
    v.push(MethodInfo { interface: "org.freedesktop.portal.Screenshot", method: "Screenshot", uses_request: true, option_arg: 1 });
    v.push(MethodInfo { interface: "org.freedesktop.portal.Screenshot", method: "PickColor", uses_request: true, option_arg: 1 });
    v.push(MethodInfo { interface: "org.freedesktop.portal.Secret", method: "RetrieveSecret", uses_request: true, option_arg: 1 });
    v.push(MethodInfo { interface: "org.freedesktop.portal.Session", method: "Close", uses_request: false, option_arg: -1 });
    v.push(MethodInfo { interface: "org.freedesktop.portal.Settings", method: "ReadAll", uses_request: false, option_arg: -1 });
    v.push(MethodInfo { interface: "org.freedesktop.portal.Settings", method: "Read", uses_request: false, option_arg: -1 });
    v.push(MethodInfo { interface: "org.freedesktop.portal.Settings", method: "ReadOne", uses_request: false, option_arg: -1 });
    v.push(MethodInfo { interface: "org.freedesktop.portal.Trash", method: "TrashFile", uses_request: false, option_arg: -1 });
    v.push(MethodInfo { interface: "org.freedesktop.portal.Usb", method: "CreateSession", uses_request: false, option_arg: 0 });
    v.push(MethodInfo { interface: "org.freedesktop.portal.Usb", method: "EnumerateDevices", uses_request: false, option_arg: 0 });
    v.push(MethodInfo { interface: "org.freedesktop.portal.Usb", method: "AcquireDevices", uses_request: true, option_arg: 2 });
    v.push(MethodInfo { interface: "org.freedesktop.portal.Usb", method: "FinishAcquireDevices", uses_request: false, option_arg: 1 });
    v.push(MethodInfo { interface: "org.freedesktop.portal.Usb", method: "ReleaseDevices", uses_request: false, option_arg: 1 });
    v.push(MethodInfo { interface: "org.freedesktop.portal.Wallpaper", method: "SetWallpaperURI", uses_request: true, option_arg: 2 });
    v.push(MethodInfo { interface: "org.freedesktop.portal.Wallpaper", method: "SetWallpaperFile", uses_request: true, option_arg: 2 });
    v.push(MethodInfo { interface: "org.freedesktop.host.portal.Registry", method: "Register", uses_request: false, option_arg: 1 });
    v
}

/// The number of methods in the table.
pub fn count() -> (r: usize)
    ensures
        r == method_table().len(),
{
    all().len()
}

/// The entry for `method` of `interface`, searching the interface's
/// contiguous group of entries.
pub fn find(interface: &str, method: &str) -> (r: Option<MethodInfo>)
    ensures
        r == scan(method_table(), 0, false, interface@, method@),
        r matches Some(m) ==> m.interface@ == interface@ && m.method@ == method@,
{
    proof {
        lemma_scan_names(method_table(), 0, false, interface@, method@);
    }
    let table = all();
    let mut seen = false;
    let mut i: usize = 0;
    while i < table.len()
        invariant
            i <= table@.len(),
            table@ == method_table(),
            scan(table@, i as int, seen, interface@, method@) == scan(table@, 0, false, interface@, method@),
        decreases table@.len() - i,
    {
        let info = table[i];
        if str_eq(info.interface, interface) {
            seen = true;
            if str_eq(info.method, method) {
                return Some(info);
            }
        } else if seen {
            return None;
        }
        i = i + 1;
    }
    None
}

/// The first entry of `t` from `k` on with both names asked for.
pub open spec fn first_match(t: Seq<MethodInfo>, k: int, interface: Seq<char>, method: Seq<char>) -> Option<MethodInfo>
    decreases t.len() - k,
{
    if k < 0 || k >= t.len() {
        None
    } else if t[k].interface@ == interface && t[k].method@ == method {
        Some(t[k])
    } else {
        first_match(t, k + 1, interface, method)
    }
}

/// The entries of each interface stand together in `t`: an entry between
/// two entries of one interface belongs to that interface too.
pub open spec fn grouped(t: Seq<MethodInfo>) -> bool {
    forall|a: int, b: int, c: int|
        0 <= a < b < c < t.len() && #[trigger] t[a].interface@ == #[trigger] t[c].interface@
            ==> #[trigger] t[b].interface@ == t[a].interface@
}

/// In a table whose interfaces are grouped, the search that stops after
/// the interface's group gives the first entry with both names, as a scan
/// of the whole table would.
pub proof fn lemma_grouped_scan_is_first_match(t: Seq<MethodInfo>, interface: Seq<char>, method: Seq<char>)
    requires
        grouped(t),
    ensures
        scan(t, 0, false, interface, method) == first_match(t, 0, interface, method),
{
    lemma_scan_first_match(t, 0, false, interface, method);
}

/// No entry from `k` on belongs to `interface` when one before `k` does and
/// the one at `k` does not.
proof fn lemma_past_group(t: Seq<MethodInfo>, j: int, k: int, m: int, interface: Seq<char>, method: Seq<char>)
    requires
        grouped(t),
        0 <= j < k < t.len(),
        k <= m,
        t[j].interface@ == interface,
        t[k].interface@ != interface,
    ensures
        first_match(t, m, interface, method) == None::<MethodInfo>,
    decreases t.len() - m,
{
    if m < t.len() {
        if m > k && t[m].interface@ == interface {
            assert(t[k].interface@ == t[j].interface@);
        }
        lemma_past_group(t, j, k, m + 1, interface, method);
    }
}

proof fn lemma_scan_first_match(t: Seq<MethodInfo>, i: int, seen: bool, interface: Seq<char>, method: Seq<char>)
    requires
        grouped(t),
        0 <= i,
        seen ==> (0 < i <= t.len() && t[i - 1].interface@ == interface),
    ensures
        scan(t, i, seen, interface, method) == first_match(t, i, interface, method),
    decreases t.len() - i,
{
    if i < t.len() {
        if t[i].interface@ == interface {
            if t[i].method@ != method {
                lemma_scan_first_match(t, i + 1, true, interface, method);
            }
        } else if seen {
            lemma_past_group(t, i - 1, i, i + 1, interface, method);
        } else {
            lemma_scan_first_match(t, i + 1, false, interface, method);
        }
    }
}

/// Whatever `scan` returns carries the names it was asked for.
proof fn lemma_scan_names(t: Seq<MethodInfo>, i: int, seen: bool, interface: Seq<char>, method: Seq<char>)
    ensures
        scan(t, i, seen, interface, method) matches Some(m) ==> m.interface@ == interface && m.method@ == method,
    decreases t.len() - i,
{
    if 0 <= i < t.len() {
        lemma_scan_names(t, i + 1, true, interface, method);
        lemma_scan_names(t, i + 1, false, interface, method);
    }
}

} // verus!
