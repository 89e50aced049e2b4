use cracked_lib::backup::{BackupConfig, BackupReport, BackupRun, Command, Outcome, Stage};

fn cfg(remote: &str) -> BackupConfig {
    BackupConfig { dir: "/tmp".to_string(), rclone_remote: remote.to_string(), rclone_folder: "CRAcked".to_string() }
}

#[test]
fn rclone_disabled_when_remote_blank() {
    let cfg = BackupConfig {
        dir: "/tmp".to_string(),
        rclone_remote: "".into(),
        rclone_folder: "CRAcked".into(),
    };
    assert!(!cfg.rclone_enabled());
    let cfg2 = BackupConfig { rclone_remote: "gdrive".into(), ..cfg };
    assert!(cfg2.rclone_enabled());
}

// ---------------------------------------------------------------------------

#[test]
fn whitespace_only_remote_is_disabled() {
    assert!(!cfg("   \t").rclone_enabled());
    assert!(!cfg("\u{3000}").rclone_enabled());
    assert!(cfg("  gdrive ").rclone_enabled());
}

#[test]
fn settings_defaults_and_destination() {
    let c = BackupConfig::from_settings("/data".to_string(), None, None);
    assert_eq!(c.rclone_remote, "");
    assert_eq!(c.rclone_folder, "CRAcked");
    assert!(!c.rclone_enabled());
    let c = BackupConfig::from_settings("/data".to_string(), Some("gdrive".to_string()), Some("Backups".to_string()));
    assert_eq!(c.rclone_destination(), "gdrive:Backups");
}

#[test]
fn default_report_is_empty() {
    let r = BackupReport::default();
    assert!(!r.committed && !r.rclone_attempted && !r.rclone_ok);
    assert_eq!(r.git_message, "");
    assert_eq!(r.rclone_message, "");
}

fn ok_exit() -> Outcome {
    Outcome::Exited { success: true, stdout_empty: false, stderr: String::new() }
}

/// Drive a foreground run through a fresh repository up to the diff.
fn run_to_diff(remote: &str) -> BackupRun {
    let (mut run, cmd) = BackupRun::start(&cfg(remote), "Manual backup", false);
    assert!(matches!(cmd, Command::CreateDir));
    assert!(matches!(run.advance(Outcome::Done), Command::CheckRepo));
    assert!(matches!(run.advance(Outcome::RepoExists(false)), Command::GitInit));
    match run.advance(ok_exit()) {
        Command::ReadGitConfig(k) => assert_eq!(k, "user.name"),
        other => panic!("{other:?}"),
    }
    // No identity configured: the fallback is written.
    match run.advance(Outcome::Exited { success: false, stdout_empty: true, stderr: String::new() }) {
        Command::WriteGitConfig(k, v) => {
            assert_eq!(k, "user.name");
            assert_eq!(v, "CRAcked");
        }
        other => panic!("{other:?}"),
    }
    match run.advance(ok_exit()) {
        Command::ReadGitConfig(k) => assert_eq!(k, "user.email"),
        other => panic!("{other:?}"),
    }
    assert!(matches!(run.advance(ok_exit()), Command::WriteSnapshot));
    assert!(matches!(run.advance(Outcome::Done), Command::GitAdd));
    assert!(matches!(run.advance(ok_exit()), Command::GitDiffCached));
    assert_eq!(run.stage, Stage::Diffing);
    run
}

#[test]
fn unchanged_data_is_not_committed() {
    let mut run = run_to_diff("");
    match run.advance(ok_exit()) {
        Command::Finish(Ok(report)) => {
            assert!(!report.committed);
            assert!(!report.rclone_attempted);
            assert_eq!(report.git_message, "Manual backup");
            assert_eq!(report.rclone_message, "Google Drive not configured — local git history only.");
        }
        other => panic!("{other:?}"),
    }
}

#[test]
fn changed_data_is_committed_and_pushed() {
    let mut run = run_to_diff("gdrive");
    match run.advance(Outcome::Exited { success: false, stdout_empty: true, stderr: String::new() }) {
        Command::GitCommit(m) => assert_eq!(m, "Manual backup"),
        other => panic!("{other:?}"),
    }
    match run.advance(ok_exit()) {
        Command::RcloneCopy(dest) => assert_eq!(dest, "gdrive:CRAcked"),
        other => panic!("{other:?}"),
    }
    match run.advance(Outcome::Exited { success: false, stdout_empty: true, stderr: "  quota exceeded\n".to_string() }) {
        Command::Finish(Ok(report)) => {
            assert!(report.committed);
            assert!(report.rclone_attempted);
            assert!(!report.rclone_ok);
            assert_eq!(report.rclone_message, "rclone failed: quota exceeded");
        }
        other => panic!("{other:?}"),
    }
}

#[test]
fn successful_push_is_reported() {
    let mut run = run_to_diff("gdrive");
    run.advance(Outcome::Exited { success: false, stdout_empty: true, stderr: String::new() });
    run.advance(ok_exit());
    match run.advance(ok_exit()) {
        Command::Finish(Ok(report)) => {
            assert!(report.rclone_ok);
            assert_eq!(report.rclone_message, "Copied to gdrive:CRAcked");
        }
        other => panic!("{other:?}"),
    }
}

#[test]
fn failures_end_a_foreground_run_with_their_message() {
    let (mut run, _) = BackupRun::start(&cfg("gdrive"), "m", false);
    match run.advance(Outcome::Failed("permission denied".to_string())) {
        Command::Finish(Err(e)) => assert_eq!(e, "create dir: permission denied"),
        other => panic!("{other:?}"),
    }
    let mut run = run_to_diff("");
    match run.advance(Outcome::NotStarted("no git".to_string())) {
        Command::Finish(Err(e)) => assert_eq!(e, "git diff: no git"),
        other => panic!("{other:?}"),
    }
}

#[test]
fn background_run_swallows_failures_and_pushes_off_thread() {
    let (mut run, _) = BackupRun::start(&cfg("gdrive"), "Auto", true);
    match run.advance(Outcome::Failed("read-only".to_string())) {
        Command::SpawnRcloneCopy(dest) => assert_eq!(dest, "gdrive:CRAcked"),
        other => panic!("{other:?}"),
    }
    let (mut run, _) = BackupRun::start(&cfg(""), "Auto", true);
    run.advance(Outcome::Done);
    run.advance(Outcome::RepoExists(true));
    run.advance(ok_exit());
    run.advance(ok_exit());
    // A failed snapshot still lets the commit be attempted.
    assert!(matches!(run.advance(Outcome::Failed("disk full".to_string())), Command::GitAdd));
    assert!(matches!(
        run.advance(Outcome::Exited { success: false, stdout_empty: true, stderr: "bad".to_string() }),
        Command::Stop
    ));
}
