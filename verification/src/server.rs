//! Watching the web server's output: recognising the readiness line, and
//! the decisions taken on each thing the watcher observes. Also the shell's
//! small command decisions (menu, tray, window close).
use vstd::prelude::*;

use crate::text::{
    chars_of, free_of_white_space, is_white_space, leading_non_white, lemma_leading_non_white,
    non_white_end, same_text, starts_with, starts_with_chars, substring,
};

verus! {

/// The start of the line with which the server announces that it is ready.
pub open spec fn ready_prefix() -> Seq<char> {
    "dsh web: http://"@
}

/// The address announced by a readiness line: the characters after the
/// prefix up to the first white space, behind `http://`; none if the line
/// does not start with the prefix or nothing follows it.
pub open spec fn ready_url(line: Seq<char>) -> Option<Seq<char>> {
    if starts_with(line, ready_prefix()) {
        let host_port = leading_non_white(line.skip(ready_prefix().len() as int));
        if host_port.len() == 0 {
            None
        } else {
            Some("http://"@ + host_port)
        }
    } else {
        None
    }
}

/// A readiness line announces the address that follows its prefix up to the
/// first white space (or the end of the line), behind `http://`; a line with
/// nothing but white space after the prefix announces none.
pub proof fn lemma_ready_url(host: Seq<char>, rest: Seq<char>)
    requires
        free_of_white_space(host),
        rest.len() == 0 || is_white_space(rest[0]),
    ensures
        host.len() > 0 ==> ready_url("dsh web: http://"@ + host + rest) == Some("http://"@ + host),
        host.len() == 0 ==> ready_url("dsh web: http://"@ + host + rest) is None,
{
    reveal_strlit("dsh web: http://");
    let p = "dsh web: http://"@;
    let line = p + host + rest;
    assert(line.take(16) =~= p);
    let after = line.skip(16);
    assert(after =~= host + rest);
    assert forall|i: int| 0 <= i < host.len() implies !is_white_space(#[trigger] after[i]) by {
        assert(after[i] == host[i]);
    }
    if rest.len() > 0 {
        assert(after[host.len() as int] == rest[0]);
    }
    lemma_leading_non_white(after, host.len() as int);
    assert(after.take(host.len() as int) =~= host);
}

/// Extracts `http://<host>:<port>` from the server's readiness line.
pub fn extract_url(line: &str) -> (r: Option<String>)
    ensures
        match r {
            Some(u) => ready_url(line@) == Some(u@),
            None => ready_url(line@) is None,
        },
{
    let cs = chars_of(line);
    let prefix = chars_of("dsh web: http://");
    if !starts_with_chars(&cs, &prefix) {
        return None;
    }
    let start = prefix.len();
    let end = non_white_end(&cs, start);
    if end == start {
        return None;
    }
    let mut url = String::from_str("http://");
    let host_port = substring(line, start, end);
    url.append(host_port.as_str());
    Some(url)
}

/// Something the server watcher observed.
#[derive(Debug)]
pub enum ServerEvent {
    /// The server printed a line on its standard output.
    Line(String),
    /// The server's standard output closed (the process ended); `quitting`
    /// tells whether the application is shutting down.
    Closed { quitting: bool },
    /// The start-up deadline has passed.
    DeadlinePassed,
    /// A wait ended without a line.
    NoLine,
}

/// Why the application has to give up.
#[derive(PartialEq, Eq, Structural, Clone, Copy, Debug)]
pub enum FatalReason {
    StartupTimeout,
    ExitedBeforeReady,
    ExitedAfterReady,
}

/// What the watcher does next.
#[derive(Debug)]
pub enum ServerAction {
    /// Keep watching.
    Wait,
    /// The server is ready at this address: show it in the main window.
    Navigate(String),
    /// Stop watching quietly.
    Stop,
    /// Report the failure and quit; watching stops.
    Fatal(FatalReason),
}

/// One step of the server watcher: from whether the server has announced
/// readiness and what was observed, to the new readiness and the action.
pub fn monitor_step(ready: bool, event: ServerEvent) -> (r: (bool, ServerAction))
    ensures
        event matches ServerEvent::Line(l) ==> if !ready && ready_url(l@) is Some {
            &&& r.0
            &&& r.1 matches ServerAction::Navigate(u) && u@ == ready_url(l@)->0
        } else {
            r.0 == ready && r.1 is Wait
        },
        event matches ServerEvent::Closed { quitting } ==> {
            &&& r.0 == ready
            &&& quitting ==> r.1 is Stop
            &&& !quitting ==> r.1 == ServerAction::Fatal(
                if ready {
                    FatalReason::ExitedAfterReady
                } else {
                    FatalReason::ExitedBeforeReady
                },
            )
        },
        event is DeadlinePassed ==> {
            &&& r.0 == ready
            &&& ready ==> r.1 is Wait
            &&& !ready ==> r.1 == ServerAction::Fatal(FatalReason::StartupTimeout)
        },
        event is NoLine ==> r.0 == ready && r.1 is Wait,
        // Once ready, the server stays ready.
        ready ==> r.0,
        // The window is navigated only when readiness is first announced.
        r.1 is Navigate ==> !ready && r.0,
        // Shutting down never counts as a failure.
        (event matches ServerEvent::Closed { quitting } && quitting) ==> !(r.1 is Fatal),
{
    match event {
        ServerEvent::Line(line) => {
            if !ready {
                match extract_url(line.as_str()) {
                    Some(url) => (true, ServerAction::Navigate(url)),
                    None => (false, ServerAction::Wait),
                }
            } else {
                (true, ServerAction::Wait)
            }
        },
        ServerEvent::Closed { quitting } => {
            if quitting {
                (ready, ServerAction::Stop)
            } else if ready {
                (ready, ServerAction::Fatal(FatalReason::ExitedAfterReady))
            } else {
                (ready, ServerAction::Fatal(FatalReason::ExitedBeforeReady))
            }
        },
        ServerEvent::DeadlinePassed => {
            if ready {
                (ready, ServerAction::Wait)
            } else {
                (ready, ServerAction::Fatal(FatalReason::StartupTimeout))
            }
        },
        ServerEvent::NoLine => (ready, ServerAction::Wait),
    }
}

/// How long the watcher waits for the next line, in milliseconds: until the
/// start-up deadline before readiness, an hour after it.
pub fn wait_millis(ready: bool, remaining_millis: u64) -> (r: u64)
    ensures
        r == if ready {
            3_600_000
        } else {
            remaining_millis
        },
{
    if ready {
        3_600_000
    } else {
        remaining_millis
    }
}

/// Grace period, in milliseconds, between asking the server to terminate and
/// killing it.
pub const SHUTDOWN_GRACE_MILLIS: u64 = 3000;

/// Interval, in milliseconds, between checks whether the server has exited.
pub const SHUTDOWN_POLL_MILLIS: u64 = 100;

/// What stopping the server asks for next.
#[derive(PartialEq, Eq, Structural, Clone, Copy, Debug)]
pub enum ShutdownAction {
    /// Send SIGTERM.
    Terminate,
    /// Check again after this many milliseconds.
    PollAfter { millis: u64 },
    /// Send SIGKILL and wait for the process.
    ForceKill,
    /// Nothing more to do.
    Done,
}

/// One step of stopping the server: SIGTERM first, then checks every 100 ms,
/// then SIGKILL once 3 s have passed without exit. `exited` is the last check's
/// answer (`None` when the check failed, which ends the sequence);
/// `elapsed_millis` counts from the SIGTERM.
pub fn shutdown_step(
    child_present: bool,
    signalled: bool,
    exited: Option<bool>,
    elapsed_millis: u64,
) -> (r: ShutdownAction)
    ensures
        !child_present ==> (r is Done),
        child_present && !signalled ==> (r is Terminate),
        child_present && signalled && (exited == Some(true) || exited is None) ==> (r is Done),
        child_present && signalled && exited == Some(false) && elapsed_millis
            > SHUTDOWN_GRACE_MILLIS ==> (r is ForceKill),
        child_present && signalled && exited == Some(false) && elapsed_millis
            <= SHUTDOWN_GRACE_MILLIS ==> r == (ShutdownAction::PollAfter {
            millis: SHUTDOWN_POLL_MILLIS,
        }),
{
    if !child_present {
        ShutdownAction::Done
    } else if !signalled {
        ShutdownAction::Terminate
    } else {
        match exited {
            Some(false) => {
                if elapsed_millis > SHUTDOWN_GRACE_MILLIS {
                    ShutdownAction::ForceKill
                } else {
                    ShutdownAction::PollAfter { millis: SHUTDOWN_POLL_MILLIS }
                }
            },
            _ => ShutdownAction::Done,
        }
    }
}

/// A command of the application menu.
#[derive(PartialEq, Eq, Structural, Clone, Copy, Debug)]
pub enum MenuCommand {
    Reload,
    OpenInBrowser,
    Ignore,
}

/// The command that an application menu item stands for.
pub fn menu_command(id: &str) -> (r: MenuCommand)
    ensures
        r == if id@ == "reload"@ {
            MenuCommand::Reload
        } else if id@ == "open-browser"@ {
            MenuCommand::OpenInBrowser
        } else {
            MenuCommand::Ignore
        },
{
    if same_text(id, "reload") {
        MenuCommand::Reload
    } else if same_text(id, "open-browser") {
        MenuCommand::OpenInBrowser
    } else {
        MenuCommand::Ignore
    }
}

/// A command of the tray icon's menu.
#[derive(PartialEq, Eq, Structural, Clone, Copy, Debug)]
pub enum TrayCommand {
    ShowMainWindow,
    Quit,
    Ignore,
}

/// The command that a tray menu item stands for.
pub fn tray_command(id: &str) -> (r: TrayCommand)
    ensures
        r == if id@ == "show"@ {
            TrayCommand::ShowMainWindow
        } else if id@ == "tray-quit"@ {
            TrayCommand::Quit
        } else {
            TrayCommand::Ignore
        },
{
    if same_text(id, "show") {
        TrayCommand::ShowMainWindow
    } else if same_text(id, "tray-quit") {
        TrayCommand::Quit
    } else {
        TrayCommand::Ignore
    }
}

/// Whether closing the window with this label only hides it (the server keeps
/// running): true for the main window.
pub fn hides_on_close(label: &str) -> (r: bool)
    ensures
        r == (label@ == "main"@),
{
    same_text(label, "main")
}

} // verus!
