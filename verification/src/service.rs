//! OS service units: the systemd user unit, the launchd agent and the scheduled task that run
//! the daemon. Writing them and calling the service managers is the caller's part.

use vstd::prelude::*;
use crate::text::{copy_str, decimal, push_str, spec_decimal};

verus! {

/// `sh.executor.daemon`, the label of the service.
pub const SERVICE_LABEL: &'static str = "sh.executor.daemon";

/// The daemon arguments for `port`.
pub open spec fn spec_daemon_args(port: u16) -> Seq<char> {
    "daemon run --foreground --port "@ + spec_decimal(port as nat) + " --hostname 127.0.0.1"@
}

/// The systemd user unit that runs `exe` with data directory `data` on `port`.
pub open spec fn spec_systemd_unit(exe: Seq<char>, data: Seq<char>, port: u16) -> Seq<char> {
    "[Unit]\nDescription=Executor daemon\n[Service]\nExecStart="@ + exe + " "@ + spec_daemon_args(
        port,
    ) + "\nEnvironment=EXECUTOR_DATA_DIR="@ + data
        + "\nRestart=on-failure\n[Install]\nWantedBy=default.target\n"@
}

/// The daemon arguments for `port`.
pub fn daemon_args(port: u16) -> (r: String)
    ensures
        r@ == spec_daemon_args(port),
{
    let mut s = copy_str("daemon run --foreground --port ");
    let digits = decimal(port as u64);
    push_str(&mut s, digits.as_str());
    push_str(&mut s, " --hostname 127.0.0.1");
    s
}

/// The systemd user unit that runs `exe` with data directory `data` on `port`.
pub fn systemd_unit(exe: &str, data: &str, port: u16) -> (r: String)
    ensures
        r@ == spec_systemd_unit(exe@, data@, port),
{
    let mut s = copy_str("[Unit]\nDescription=Executor daemon\n[Service]\nExecStart=");
    push_str(&mut s, exe);
    push_str(&mut s, " ");
    let args = daemon_args(port);
    push_str(&mut s, args.as_str());
    push_str(&mut s, "\nEnvironment=EXECUTOR_DATA_DIR=");
    push_str(&mut s, data);
    push_str(&mut s, "\nRestart=on-failure\n[Install]\nWantedBy=default.target\n");
    s
}

/// The launchd agent that runs `exe` with data directory `data` on `port`.
pub open spec fn spec_launchd_plist(exe: Seq<char>, data: Seq<char>, port: u16) -> Seq<char> {
    "<?xml version=\"1.0\" encoding=\"UTF-8\"?>\n<!DOCTYPE plist PUBLIC \"-//Apple//DTD PLIST 1.0//EN\" \"http://www.apple.com/DTDs/PropertyList-1.0.dtd\">\n<plist version=\"1.0\"><dict>\n  <key>Label</key><string>"@
        + SERVICE_LABEL@ + "</string>\n  <key>ProgramArguments</key>\n  <array>\n    <string>"@ + exe
        + "</string>\n    <string>daemon</string>\n    <string>run</string>\n    <string>--foreground</string>\n    <string>--port</string>\n    <string>"@
        + spec_decimal(port as nat)
        + "</string>\n    <string>--hostname</string>\n    <string>127.0.0.1</string>\n  </array>\n  <key>EnvironmentVariables</key>\n  <dict><key>EXECUTOR_DATA_DIR</key><string>"@
        + data
        + "</string></dict>\n  <key>RunAtLoad</key><true/>\n  <key>KeepAlive</key><true/>\n</dict></plist>\n"@
}

/// The launchd agent that runs `exe` with data directory `data` on `port`.
pub fn launchd_plist(exe: &str, data: &str, port: u16) -> (r: String)
    ensures
        r@ == spec_launchd_plist(exe@, data@, port),
{
    let mut s = copy_str(
        "<?xml version=\"1.0\" encoding=\"UTF-8\"?>\n<!DOCTYPE plist PUBLIC \"-//Apple//DTD PLIST 1.0//EN\" \"http://www.apple.com/DTDs/PropertyList-1.0.dtd\">\n<plist version=\"1.0\"><dict>\n  <key>Label</key><string>",
    );
    push_str(&mut s, SERVICE_LABEL);
    push_str(&mut s, "</string>\n  <key>ProgramArguments</key>\n  <array>\n    <string>");
    push_str(&mut s, exe);
    push_str(
        &mut s,
        "</string>\n    <string>daemon</string>\n    <string>run</string>\n    <string>--foreground</string>\n    <string>--port</string>\n    <string>",
    );
    let digits = decimal(port as u64);
    push_str(&mut s, digits.as_str());
    push_str(
        &mut s,
        "</string>\n    <string>--hostname</string>\n    <string>127.0.0.1</string>\n  </array>\n  <key>EnvironmentVariables</key>\n  <dict><key>EXECUTOR_DATA_DIR</key><string>",
    );
    push_str(&mut s, data);
    push_str(
        &mut s,
        "</string></dict>\n  <key>RunAtLoad</key><true/>\n  <key>KeepAlive</key><true/>\n</dict></plist>\n",
    );
    s
}

/// The scheduled-task trigger: at start-up for `boot`, else at log-on.
pub fn schtasks_trigger(boot: bool) -> (r: &'static str)
    ensures
        r@ == (if boot {
            "ONSTART"@
        } else {
            "ONLOGON"@
        }),
{
    if boot {
        "ONSTART"
    } else {
        "ONLOGON"
    }
}

/// The command line of the scheduled task: the quoted executable and the daemon arguments.
pub fn schtasks_command(exe: &str, port: u16) -> (r: String)
    ensures
        r@ == "\""@ + exe@ + "\" "@ + spec_daemon_args(port),
{
    let mut s = copy_str("\"");
    push_str(&mut s, exe);
    push_str(&mut s, "\" ");
    let args = daemon_args(port);
    push_str(&mut s, args.as_str());
    s
}

} // verus!
