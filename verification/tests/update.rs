use dsh_desktop::json::package_version;
use dsh_desktop::update::{
    autoupdate_disabled, force_update_requested, last_check_time, last_lines, npm_install_args,
    npm_view_args, parse_npm_view_output, recently_checked, select_payload, update_wanted,
    CHECK_INTERVAL_SECS,
};

#[test]
fn view_and_install_arguments() {
    assert_eq!(
        npm_view_args(),
        vec!["view", "@deepseek-ai/dsh", "version", "--json", "--fetch-timeout=15000", "--fetch-retries=0"]
    );
    assert_eq!(
        npm_install_args("/tmp/server.new", "0.1.0-rc.7"),
        vec![
            "install",
            "--prefix",
            "/tmp/server.new",
            "--omit=dev",
            "--no-audit",
            "--no-fund",
            "--fetch-timeout=60000",
            "@deepseek-ai/dsh@0.1.0-rc.7",
        ]
    );
}

#[test]
fn view_output() {
    assert_eq!(parse_npm_view_output("\"0.1.0-rc.7\"\n"), Ok("0.1.0-rc.7".to_string()));
    assert_eq!(parse_npm_view_output("0.1.0"), Ok("0.1.0".to_string()));
    assert_eq!(parse_npm_view_output("  \"\"  "), Err("npm view 返回为空".to_string()));
    assert_eq!(parse_npm_view_output(""), Err("npm view 返回为空".to_string()));
}

#[test]
fn tail_of_output() {
    let lines: Vec<String> = (0..25).map(|i| format!("l{}", i)).collect();
    let tail = last_lines(&lines, 20);
    assert_eq!(tail.len(), 20);
    assert_eq!(tail[0], "l5");
    assert_eq!(tail[19], "l24");
    assert_eq!(last_lines(&lines[..3].to_vec(), 20), lines[..3].to_vec());
}

#[test]
fn throttle() {
    assert_eq!(last_check_time("1700000000\n"), 1700000000);
    assert_eq!(last_check_time("junk"), 0);
    assert_eq!(last_check_time(""), 0);
    assert!(recently_checked(1000 + CHECK_INTERVAL_SECS - 1, 1000));
    assert!(!recently_checked(1000 + CHECK_INTERVAL_SECS, 1000));
    assert!(recently_checked(5, 1000));
    assert!(!recently_checked(100000, 0));
}

#[test]
fn setting_values() {
    assert!(autoupdate_disabled(Some("0")));
    assert!(!autoupdate_disabled(Some("1")));
    assert!(!autoupdate_disabled(None));
    assert!(force_update_requested(Some("1")));
    assert!(!force_update_requested(Some("true")));
    assert!(!force_update_requested(None));
}

#[test]
fn install_decision() {
    assert!(update_wanted(false, "0.1.0-rc.7", Some("0.1.0-rc.6")));
    assert!(!update_wanted(false, "0.1.0-rc.6", Some("0.1.0-rc.6")));
    assert!(update_wanted(true, "0.1.0-rc.6", Some("0.1.0-rc.6")));
    assert!(update_wanted(false, "0.1.0", None));
    assert!(!update_wanted(false, "garbage", Some("0.1.0")));
}

#[test]
fn payload_selection() {
    assert_eq!(select_payload(Some("0.2.0"), Some("0.1.0")), (true, "updated v0.2.0".to_string()));
    assert_eq!(select_payload(None, Some("0.1.0")), (false, "bundled v0.1.0".to_string()));
    assert_eq!(select_payload(None, None), (false, "bundled v?".to_string()));
}

#[test]
fn package_manifest_version() {
    assert_eq!(
        package_version("{\"name\":\"@deepseek-ai/dsh\",\"version\":\"0.1.0-rc.6\"}").as_deref(),
        Some("0.1.0-rc.6")
    );
    assert_eq!(package_version("{\"version\":6}"), None);
    assert_eq!(package_version("{\"name\":\"x\"}"), None);
    assert_eq!(package_version("[\"version\"]"), None);
    assert_eq!(package_version("not json"), None);
}

use dsh_desktop::update::{update_step, UpdateAction, UpdateEvent, UpdateOutcome, UpdatePhase};

fn settings(autoupdate: Option<&str>, force: Option<&str>, dir: bool) -> UpdateEvent {
    UpdateEvent::Settings {
        autoupdate: autoupdate.map(String::from),
        force_update: force.map(String::from),
        data_dir_found: dir,
    }
}

#[test]
fn updater_happy_path() {
    let (p, a) = update_step(UpdatePhase::Starting, settings(None, None, true));
    assert!(matches!(p, UpdatePhase::CheckingSchedule { force: false }));
    assert!(matches!(a, UpdateAction::ReadSchedule));
    let (p, a) = update_step(p, UpdateEvent::Schedule { stamp: Some("100".to_string()), now: 100 + 21600 });
    assert!(matches!(p, UpdatePhase::QueryingLatest { force: false }));
    assert!(matches!(a, UpdateAction::QueryLatest));
    let (p, a) = update_step(p, UpdateEvent::LatestQueried(Ok("\"0.1.0-rc.7\"\n".to_string())));
    assert!(matches!(a, UpdateAction::ReadCurrentVersion));
    let (p, a) = update_step(p, UpdateEvent::CurrentVersion(Some("0.1.0-rc.6".to_string())));
    match &a {
        UpdateAction::Install { version } => assert_eq!(version, "0.1.0-rc.7"),
        other => panic!("unexpected {:?}", other),
    }
    let (p, a) = update_step(p, UpdateEvent::InstallDone(true));
    assert!(matches!(a, UpdateAction::PatchAndReadStaged));
    let (p, a) = update_step(p, UpdateEvent::StagedVersion(Some("0.1.0-rc.7".to_string())));
    assert!(matches!(a, UpdateAction::Replace));
    let (p, a) = update_step(p, UpdateEvent::ReplaceDone(true));
    assert!(matches!(p, UpdatePhase::Finished));
    match a {
        UpdateAction::Finish { outcome: UpdateOutcome::Updated(v), write_stamp: true, discard_staging: false } => {
            assert_eq!(v, "0.1.0-rc.7")
        }
        other => panic!("unexpected {:?}", other),
    }
}

#[test]
fn updater_stops_early() {
    let (p, a) = update_step(UpdatePhase::Starting, settings(Some("0"), Some("1"), true));
    assert!(matches!(p, UpdatePhase::Finished));
    assert!(matches!(a, UpdateAction::Finish { outcome: UpdateOutcome::Disabled, write_stamp: false, discard_staging: false }));
    let (_, a) = update_step(UpdatePhase::Starting, settings(None, None, false));
    assert!(matches!(a, UpdateAction::Finish { outcome: UpdateOutcome::NoDataDir, .. }));
    let (_, a) = update_step(
        UpdatePhase::CheckingSchedule { force: false },
        UpdateEvent::Schedule { stamp: Some("1000".to_string()), now: 2000 },
    );
    assert!(matches!(a, UpdateAction::Finish { outcome: UpdateOutcome::Throttled, .. }));
    let (_, a) = update_step(
        UpdatePhase::QueryingLatest { force: false },
        UpdateEvent::LatestQueried(Err("offline".to_string())),
    );
    assert!(matches!(a, UpdateAction::Finish { outcome: UpdateOutcome::QueryFailed(ref e), .. } if e == "offline"));
    let (_, a) = update_step(
        UpdatePhase::ComparingCurrent { force: false, latest: "0.1.0".to_string() },
        UpdateEvent::CurrentVersion(Some("0.1.0".to_string())),
    );
    assert!(matches!(a, UpdateAction::Finish { outcome: UpdateOutcome::UpToDate(ref v), write_stamp: true, discard_staging: false } if v == "0.1.0"));
    let (_, a) = update_step(
        UpdatePhase::Installing { latest: "0.1.0".to_string() },
        UpdateEvent::InstallDone(false),
    );
    assert!(matches!(a, UpdateAction::Finish { outcome: UpdateOutcome::InstallFailed, write_stamp: false, discard_staging: true }));
    let (_, a) = update_step(
        UpdatePhase::Verifying { latest: "0.1.0".to_string() },
        UpdateEvent::StagedVersion(None),
    );
    assert!(matches!(a, UpdateAction::Finish { outcome: UpdateOutcome::VerifyFailed, write_stamp: false, discard_staging: true }));
    let (_, a) = update_step(UpdatePhase::Finished, UpdateEvent::InstallDone(true));
    assert!(matches!(a, UpdateAction::Finish { outcome: UpdateOutcome::Unexpected, .. }));
}

#[test]
fn updater_force_skips_schedule_and_comparison() {
    let (p, a) = update_step(UpdatePhase::Starting, settings(None, Some("1"), true));
    assert!(matches!(p, UpdatePhase::QueryingLatest { force: true }));
    assert!(matches!(a, UpdateAction::QueryLatest));
    let (p, _) = update_step(p, UpdateEvent::LatestQueried(Ok("0.1.0".to_string())));
    let (_, a) = update_step(p, UpdateEvent::CurrentVersion(Some("0.1.0".to_string())));
    assert!(matches!(a, UpdateAction::Install { .. }));
}

use dsh_desktop::update::{join_lines, npm_collect_step, npm_outcome, NpmEvent, NpmStep};

#[test]
fn npm_results() {
    let lines: Vec<String> = (0..25).map(|i| format!("l{}", i)).collect();
    assert_eq!(npm_outcome(true, true, Some(0), &lines), Err("npm 命令超时".to_string()));
    assert_eq!(npm_outcome(false, true, Some(0), &lines), Ok(lines.join("\n")));
    let tail: Vec<String> = lines[5..].to_vec();
    assert_eq!(
        npm_outcome(false, false, Some(1), &lines),
        Err(format!("npm 退出码 {:?}，输出尾部：\n{}", Some(1), tail.join("\n")))
    );
    for code in [None, Some(0), Some(9), Some(10), Some(255), Some(-1), Some(i32::MIN), Some(i32::MAX)] {
        assert_eq!(
            npm_outcome(false, false, code, &lines[..2].to_vec()),
            Err(format!("npm 退出码 {:?}，输出尾部：\n{}", code, lines[..2].join("\n")))
        );
    }
    assert_eq!(npm_outcome(false, true, None, &Vec::new()), Ok(String::new()));
}

#[test]
fn joined_lines() {
    assert_eq!(join_lines(&Vec::new()), "");
    assert_eq!(join_lines(&vec!["a".to_string()]), "a");
    assert_eq!(join_lines(&vec!["a".to_string(), "".to_string(), "c".to_string()]), "a\n\nc");
}

#[test]
fn npm_collecting() {
    let mut lines = Vec::new();
    assert_eq!(npm_collect_step(&mut lines, NpmEvent::Line("x".to_string())), NpmStep::Continue);
    assert_eq!(npm_collect_step(&mut lines, NpmEvent::Line("y".to_string())), NpmStep::Continue);
    assert_eq!(lines, vec!["x".to_string(), "y".to_string()]);
    assert_eq!(npm_collect_step(&mut lines, NpmEvent::OutputClosed), NpmStep::WaitForExit);
    assert_eq!(npm_collect_step(&mut lines, NpmEvent::TimedOut), NpmStep::KillForTimeout);
    assert_eq!(lines.len(), 2);
}
