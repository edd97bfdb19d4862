use dsh_desktop::server::{
    extract_url, hides_on_close, menu_command, monitor_step, tray_command, wait_millis,
    FatalReason, MenuCommand, ServerAction, ServerEvent, TrayCommand,
};

#[test]
fn extract_url_from_ready_line() {
    assert_eq!(
        extract_url("dsh web: http://127.0.0.1:53817").as_deref(),
        Some("http://127.0.0.1:53817")
    );
    assert_eq!(
        extract_url("dsh web: http://127.0.0.1:4000 (press ctrl-c)").as_deref(),
        Some("http://127.0.0.1:4000")
    );
    assert_eq!(extract_url("dsh web: http://"), None);
    assert_eq!(extract_url("dsh web: http:// 127.0.0.1"), None);
    assert_eq!(extract_url("  dsh web: http://127.0.0.1:1"), None);
    assert_eq!(extract_url("listening on 127.0.0.1"), None);
    assert_eq!(extract_url(""), None);
}

fn line(s: &str) -> ServerEvent {
    ServerEvent::Line(s.to_string())
}

#[test]
fn monitor_navigates_once() {
    let (ready, action) = monitor_step(false, line("starting"));
    assert!(!ready);
    assert!(matches!(action, ServerAction::Wait));
    let (ready, action) = monitor_step(ready, line("dsh web: http://127.0.0.1:9"));
    assert!(ready);
    match action {
        ServerAction::Navigate(url) => assert_eq!(url, "http://127.0.0.1:9"),
        other => panic!("unexpected {:?}", other),
    }
    let (ready, action) = monitor_step(ready, line("dsh web: http://127.0.0.1:10"));
    assert!(ready);
    assert!(matches!(action, ServerAction::Wait));
}

#[test]
fn monitor_failures() {
    assert!(matches!(
        monitor_step(false, ServerEvent::DeadlinePassed).1,
        ServerAction::Fatal(FatalReason::StartupTimeout)
    ));
    assert!(matches!(monitor_step(true, ServerEvent::DeadlinePassed).1, ServerAction::Wait));
    assert!(matches!(
        monitor_step(false, ServerEvent::Closed { quitting: false }).1,
        ServerAction::Fatal(FatalReason::ExitedBeforeReady)
    ));
    assert!(matches!(
        monitor_step(true, ServerEvent::Closed { quitting: false }).1,
        ServerAction::Fatal(FatalReason::ExitedAfterReady)
    ));
    assert!(matches!(monitor_step(true, ServerEvent::Closed { quitting: true }).1, ServerAction::Stop));
    assert!(matches!(monitor_step(false, ServerEvent::NoLine), (false, ServerAction::Wait)));
}

#[test]
fn wait_times() {
    assert_eq!(wait_millis(true, 5), 3_600_000);
    assert_eq!(wait_millis(false, 5), 5);
}

#[test]
fn shell_commands() {
    assert_eq!(menu_command("reload"), MenuCommand::Reload);
    assert_eq!(menu_command("open-browser"), MenuCommand::OpenInBrowser);
    assert_eq!(menu_command("quit"), MenuCommand::Ignore);
    assert_eq!(tray_command("show"), TrayCommand::ShowMainWindow);
    assert_eq!(tray_command("tray-quit"), TrayCommand::Quit);
    assert_eq!(tray_command("reload"), TrayCommand::Ignore);
    assert!(hides_on_close("main"));
    assert!(!hides_on_close("splash"));
}

use dsh_desktop::server::{shutdown_step, ShutdownAction};

#[test]
fn shutdown_sequence() {
    assert_eq!(shutdown_step(false, false, None, 0), ShutdownAction::Done);
    assert_eq!(shutdown_step(true, false, Some(false), 0), ShutdownAction::Terminate);
    assert_eq!(shutdown_step(true, true, Some(false), 0), ShutdownAction::PollAfter { millis: 100 });
    assert_eq!(shutdown_step(true, true, Some(false), 3000), ShutdownAction::PollAfter { millis: 100 });
    assert_eq!(shutdown_step(true, true, Some(false), 3001), ShutdownAction::ForceKill);
    assert_eq!(shutdown_step(true, true, Some(true), 50), ShutdownAction::Done);
    assert_eq!(shutdown_step(true, true, None, 50), ShutdownAction::Done);
}
