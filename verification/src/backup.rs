//! Backup decisions.
//!
//! The data directory is a git repository. A backup writes a plain-text
//! snapshot, commits it when something changed, and, when a remote is
//! configured, copies the whole directory to it with `rclone copy` (never
//! `sync`, so nothing on the remote is ever deleted). The commands themselves
//! are run by the app; this module decides what to run next from what the
//! last command reported, and builds the report.

use vstd::prelude::*;

verus! {

/// The Unicode `White_Space` property, which `str::trim` strips.
pub open spec fn is_white_space(c: char) -> bool {
    ||| '\u{0009}' <= c <= '\u{000D}'
    ||| c == '\u{0020}'
    ||| c == '\u{0085}'
    ||| c == '\u{00A0}'
    ||| c == '\u{1680}'
    ||| '\u{2000}' <= c <= '\u{200A}'
    ||| c == '\u{2028}'
    ||| c == '\u{2029}'
    ||| c == '\u{202F}'
    ||| c == '\u{205F}'
    ||| c == '\u{3000}'
}

/// The slice of `s` from `bounds.0` to `bounds.1` is `s` with leading and
/// trailing white space removed.
pub open spec fn trimmed_at(s: Seq<char>, bounds: (int, int)) -> bool {
    let (a, b) = bounds;
    &&& 0 <= a <= b <= s.len()
    &&& forall|i: int| 0 <= i < a ==> is_white_space(#[trigger] s[i])
    &&& forall|i: int| b <= i < s.len() ==> is_white_space(#[trigger] s[i])
    &&& a < b ==> !is_white_space(s[a]) && !is_white_space(s[b - 1])
}

/// `t` is `s` with leading and trailing white space removed.
pub open spec fn is_trim_of(s: Seq<char>, t: Seq<char>) -> bool {
    exists|bounds: (int, int)| #[trigger] trimmed_at(s, bounds) && t == s.subrange(bounds.0, bounds.1)
}

/// `str::trim`: the part of `s` left after removing leading and trailing
/// white space. The contract claims that the result is the slice of `s`
/// from `a` to `b`, where everything before `a` and from `b` on is white
/// space, and, when the result is not empty, its first and last characters
/// are not.
#[verifier::external_body]
fn trim(s: &str) -> (r: &str)
    ensures
        is_trim_of(s@, r@),
{
    s.trim()
}

/// Some character of `s` is not white space.
pub open spec fn has_visible_char(s: Seq<char>) -> bool {
    exists|i: int| 0 <= i < s.len() && !is_white_space(#[trigger] s[i])
}

/// Backup configuration: the data directory (which is also the repository)
/// and the rclone remote and folder; an all-blank remote disables the push.
#[derive(Debug, Clone)]
pub struct BackupConfig {
    pub dir: String,
    pub rclone_remote: String,
    pub rclone_folder: String,
}

impl BackupConfig {
    /// Whether the push to the remote is configured: the remote name is not
    /// blank.
    pub fn rclone_enabled(&self) -> (r: bool)
        ensures
            r == has_visible_char(self.rclone_remote@),
    {
        let t = trim(self.rclone_remote.as_str());
        let r = !t.is_empty();
        proof {
            let s = self.rclone_remote@;
            let bounds = choose|bounds: (int, int)| #[trigger] trimmed_at(s, bounds) && t@ == s.subrange(bounds.0, bounds.1);
            let (a, b) = bounds;
            if a < b {
                assert(!is_white_space(s[a]));
            }
        }
        r
    }
}


/// The folder on the remote when none is configured.
pub open spec fn default_folder() -> Seq<char> {
    "CRAcked"@
}

impl BackupConfig {
    /// The configuration from the stored settings: a missing remote is blank
    /// (push disabled) and a missing folder is `CRAcked`.
    pub fn from_settings(dir: String, remote: Option<String>, folder: Option<String>) -> (cfg: BackupConfig)
        ensures
            cfg.dir@ == dir@,
            cfg.rclone_remote@ == match remote {
                Some(r) => r@,
                None => Seq::<char>::empty(),
            },
            cfg.rclone_folder@ == match folder {
                Some(f) => f@,
                None => default_folder(),
            },
    {
        BackupConfig {
            dir,
            rclone_remote: match remote {
                Some(r) => r,
                None => String::new(),
            },
            rclone_folder: match folder {
                Some(f) => f,
                None => String::from_str("CRAcked"),
            },
        }
    }

    /// The rclone destination, `<remote>:<folder>`.
    pub fn rclone_destination(&self) -> (dest: String)
        ensures
            dest@ == self.rclone_remote@ + seq![':'] + self.rclone_folder@,
    {
        let mut dest = self.rclone_remote.clone();
        dest.append(":");
        dest.append(self.rclone_folder.as_str());
        proof {
            reveal_strlit(":");
        }
        dest
    }
}

/// Outcome of a backup run, surfaced to the UI.
#[derive(Debug, Clone)]
pub struct BackupReport {
    pub committed: bool,
    pub git_message: String,
    pub rclone_attempted: bool,
    pub rclone_ok: bool,
    pub rclone_message: String,
}

/// A backup report in mathematical terms.
pub struct ReportView {
    pub committed: bool,
    pub git_message: Seq<char>,
    pub rclone_attempted: bool,
    pub rclone_ok: bool,
    pub rclone_message: Seq<char>,
}

impl View for BackupReport {
    type V = ReportView;

    open spec fn view(&self) -> ReportView {
        ReportView {
            committed: self.committed,
            git_message: self.git_message@,
            rclone_attempted: self.rclone_attempted,
            rclone_ok: self.rclone_ok,
            rclone_message: self.rclone_message@,
        }
    }
}

impl Default for BackupReport {
    fn default() -> (r: BackupReport)
        ensures
            !r.committed && !r.rclone_attempted && !r.rclone_ok,
            r.git_message@ == Seq::<char>::empty(),
            r.rclone_message@ == Seq::<char>::empty(),
    {
        BackupReport {
            committed: false,
            git_message: String::new(),
            rclone_attempted: false,
            rclone_ok: false,
            rclone_message: String::new(),
        }
    }
}

/// Where a backup run stands.
#[derive(Debug, Clone, Copy, PartialEq, Eq, Structural)]
pub enum Stage {
    CreatingDir,
    CheckingRepo,
    InitializingRepo,
    ReadingName,
    WritingName,
    ReadingEmail,
    WritingEmail,
    WritingSnapshot,
    Adding,
    Diffing,
    Committing,
    Pushing,
    Finished,
}

/// What the last command reported.
#[derive(Debug, Clone)]
pub enum Outcome {
    /// A filesystem step succeeded.
    Done,
    /// A filesystem step failed, with the error text.
    Failed(String),
    /// Whether `<dir>/.git` exists.
    RepoExists(bool),
    /// A process ran: whether it exited successfully, whether it printed
    /// nothing on stdout, and its stderr.
    Exited { success: bool, stdout_empty: bool, stderr: String },
    /// A process could not be started, with the error text.
    NotStarted(String),
}

/// An outcome in mathematical terms.
pub enum OutcomeView {
    Done,
    Failed(Seq<char>),
    RepoExists(bool),
    Exited { success: bool, stdout_empty: bool, stderr: Seq<char> },
    NotStarted(Seq<char>),
}

impl View for Outcome {
    type V = OutcomeView;

    open spec fn view(&self) -> OutcomeView {
        match self {
            Outcome::Done => OutcomeView::Done,
            Outcome::Failed(e) => OutcomeView::Failed(e@),
            Outcome::RepoExists(b) => OutcomeView::RepoExists(*b),
            Outcome::Exited { success, stdout_empty, stderr } => OutcomeView::Exited {
                success: *success,
                stdout_empty: *stdout_empty,
                stderr: stderr@,
            },
            Outcome::NotStarted(e) => OutcomeView::NotStarted(e@),
        }
    }
}

/// The next thing the app must do.
#[derive(Debug)]
pub enum Command {
    /// Create the data directory (and its parents).
    CreateDir,
    /// Report whether `<dir>/.git` exists.
    CheckRepo,
    /// Run `git init -q` in the directory.
    GitInit,
    /// Run `git config <key>` in the directory.
    ReadGitConfig(String),
    /// Run `git config <key> <value>` in the directory; its result is ignored.
    WriteGitConfig(String, String),
    /// Write the snapshot (and the README) into the directory.
    WriteSnapshot,
    /// Run `git add -A`.
    GitAdd,
    /// Run `git diff --cached --quiet`.
    GitDiffCached,
    /// Run `git commit -q -m <message>`.
    GitCommit(String),
    /// Run `rclone copy <dir> <destination> --transfers=4` and report.
    RcloneCopy(String),
    /// Start `rclone copy <dir> <destination> --transfers=4` in the
    /// background, ignoring its result; the run is over.
    SpawnRcloneCopy(String),
    /// The run is over with this result.
    Finish(Result<BackupReport, String>),
    /// The run is over with nothing to report.
    Stop,
}

/// A command in mathematical terms.
pub enum CommandView {
    CreateDir,
    CheckRepo,
    GitInit,
    ReadGitConfig(Seq<char>),
    WriteGitConfig(Seq<char>, Seq<char>),
    WriteSnapshot,
    GitAdd,
    GitDiffCached,
    GitCommit(Seq<char>),
    RcloneCopy(Seq<char>),
    SpawnRcloneCopy(Seq<char>),
    Finish(Result<ReportView, Seq<char>>),
    Stop,
}

impl View for Command {
    type V = CommandView;

    open spec fn view(&self) -> CommandView {
        match self {
            Command::CreateDir => CommandView::CreateDir,
            Command::CheckRepo => CommandView::CheckRepo,
            Command::GitInit => CommandView::GitInit,
            Command::ReadGitConfig(k) => CommandView::ReadGitConfig(k@),
            Command::WriteGitConfig(k, v) => CommandView::WriteGitConfig(k@, v@),
            Command::WriteSnapshot => CommandView::WriteSnapshot,
            Command::GitAdd => CommandView::GitAdd,
            Command::GitDiffCached => CommandView::GitDiffCached,
            Command::GitCommit(m) => CommandView::GitCommit(m@),
            Command::RcloneCopy(d) => CommandView::RcloneCopy(d@),
            Command::SpawnRcloneCopy(d) => CommandView::SpawnRcloneCopy(d@),
            Command::Finish(r) => CommandView::Finish(
                match r {
                    Ok(report) => Ok(report@),
                    Err(e) => Err(e@),
                },
            ),
            Command::Stop => CommandView::Stop,
        }
    }
}

/// A backup run: a foreground run reports its full status; a background run
/// swallows failures and pushes on a background thread.
#[derive(Debug)]
pub struct BackupRun {
    pub stage: Stage,
    pub background: bool,
    pub rclone_enabled: bool,
    pub destination: String,
    pub message: String,
    pub committed: bool,
}

/// A backup run in mathematical terms.
pub struct RunView {
    pub stage: Stage,
    pub background: bool,
    pub rclone_enabled: bool,
    pub destination: Seq<char>,
    pub message: Seq<char>,
    pub committed: bool,
}

impl View for BackupRun {
    type V = RunView;

    open spec fn view(&self) -> RunView {
        RunView {
            stage: self.stage,
            background: self.background,
            rclone_enabled: self.rclone_enabled,
            destination: self.destination@,
            message: self.message@,
            committed: self.committed,
        }
    }
}

/// The commit identity used when the repository has none.
pub open spec fn name_key() -> Seq<char> { "user.name"@ }
pub open spec fn name_fallback() -> Seq<char> { "CRAcked"@ }
pub open spec fn email_key() -> Seq<char> { "user.email"@ }
pub open spec fn email_fallback() -> Seq<char> { "cracked@localhost"@ }

/// The message when no remote is configured.
pub open spec fn not_configured_message() -> Seq<char> {
    "Google Drive not configured — local git history only."@
}

/// `outcome` is a kind of report the command of `stage` can give.
pub open spec fn outcome_fits(stage: Stage, outcome: OutcomeView) -> bool {
    match stage {
        Stage::CreatingDir | Stage::WritingSnapshot => outcome is Done || outcome is Failed,
        Stage::CheckingRepo => outcome is RepoExists,
        Stage::Finished => false,
        _ => outcome is Exited || outcome is NotStarted,
    }
}

/// `after`/`cmd` go on from `before` to the next `stage` with `cmd`.
pub open spec fn moves_to(before: RunView, after: RunView, cmd: CommandView, stage: Stage, next: CommandView) -> bool {
    after == (RunView { stage, ..before }) && cmd == next
}

/// The end of a run once the commit step is over (with `committed` as the
/// run's commit status): a foreground run pushes when a remote is configured
/// and otherwise finishes with its report; a background run starts the push in
/// the background when a remote is configured and otherwise stops.
pub open spec fn push_or_finish(before: RunView, committed: bool, after: RunView, cmd: CommandView) -> bool {
    let run = RunView { committed, ..before };
    if before.background {
        moves_to(run, after, cmd, Stage::Finished, if before.rclone_enabled {
            CommandView::SpawnRcloneCopy(before.destination)
        } else {
            CommandView::Stop
        })
    } else if before.rclone_enabled {
        moves_to(run, after, cmd, Stage::Pushing, CommandView::RcloneCopy(before.destination))
    } else {
        moves_to(run, after, cmd, Stage::Finished, CommandView::Finish(Ok(ReportView {
            committed,
            git_message: before.message,
            rclone_attempted: false,
            rclone_ok: false,
            rclone_message: not_configured_message(),
        })))
    }
}

/// A failure while preparing the repository: a foreground run finishes with
/// `error`; a background run skips to the push decision.
pub open spec fn repo_failure(before: RunView, error: Seq<char>, after: RunView, cmd: CommandView) -> bool {
    if before.background {
        push_or_finish(before, before.committed, after, cmd)
    } else {
        moves_to(before, after, cmd, Stage::Finished, CommandView::Finish(Err(error)))
    }
}

/// The report of a finished push.
pub open spec fn push_report(before: RunView, ok: bool, message: Seq<char>) -> CommandView {
    CommandView::Finish(Ok(ReportView {
        committed: before.committed,
        git_message: before.message,
        rclone_attempted: true,
        rclone_ok: ok,
        rclone_message: message,
    }))
}

/// One step of a backup run: from `before`, given what the last command
/// reported, the run moves to `after` and asks for `cmd`.
pub open spec fn step_spec(before: RunView, outcome: OutcomeView, after: RunView, cmd: CommandView) -> bool {
    match before.stage {
        Stage::CreatingDir => match outcome {
            OutcomeView::Failed(e) => repo_failure(before, "create dir: "@ + e, after, cmd),
            _ => moves_to(before, after, cmd, Stage::CheckingRepo, CommandView::CheckRepo),
        },
        Stage::CheckingRepo => if outcome == OutcomeView::RepoExists(true) {
            moves_to(before, after, cmd, Stage::ReadingName, CommandView::ReadGitConfig(name_key()))
        } else {
            moves_to(before, after, cmd, Stage::InitializingRepo, CommandView::GitInit)
        },
        Stage::InitializingRepo => match outcome {
            OutcomeView::Exited { success: true, .. } => moves_to(
                before, after, cmd, Stage::ReadingName, CommandView::ReadGitConfig(name_key())),
            OutcomeView::Exited { stderr, .. } => repo_failure(before, "git init failed: "@ + stderr, after, cmd),
            OutcomeView::NotStarted(e) => repo_failure(before, "git init: "@ + e, after, cmd),
            _ => false,
        },
        Stage::ReadingName => if outcome matches OutcomeView::Exited { success: true, stdout_empty: false, .. } {
            moves_to(before, after, cmd, Stage::ReadingEmail, CommandView::ReadGitConfig(email_key()))
        } else {
            moves_to(before, after, cmd, Stage::WritingName, CommandView::WriteGitConfig(name_key(), name_fallback()))
        },
        Stage::WritingName => moves_to(before, after, cmd, Stage::ReadingEmail, CommandView::ReadGitConfig(email_key())),
        Stage::ReadingEmail => if outcome matches OutcomeView::Exited { success: true, stdout_empty: false, .. } {
            moves_to(before, after, cmd, Stage::WritingSnapshot, CommandView::WriteSnapshot)
        } else {
            moves_to(before, after, cmd, Stage::WritingEmail, CommandView::WriteGitConfig(email_key(), email_fallback()))
        },
        Stage::WritingEmail => moves_to(before, after, cmd, Stage::WritingSnapshot, CommandView::WriteSnapshot),
        Stage::WritingSnapshot => match outcome {
            OutcomeView::Failed(e) => if before.background {
                moves_to(before, after, cmd, Stage::Adding, CommandView::GitAdd)
            } else {
                moves_to(before, after, cmd, Stage::Finished, CommandView::Finish(Err(e)))
            },
            _ => moves_to(before, after, cmd, Stage::Adding, CommandView::GitAdd),
        },
        Stage::Adding => match outcome {
            OutcomeView::Exited { success: true, .. } => moves_to(before, after, cmd, Stage::Diffing, CommandView::GitDiffCached),
            OutcomeView::Exited { stderr, .. } => repo_failure(before, "git add failed: "@ + stderr, after, cmd),
            OutcomeView::NotStarted(e) => repo_failure(before, "git add: "@ + e, after, cmd),
            _ => false,
        },
        Stage::Diffing => match outcome {
            OutcomeView::Exited { success: true, .. } => push_or_finish(before, false, after, cmd),
            OutcomeView::Exited { .. } => moves_to(before, after, cmd, Stage::Committing, CommandView::GitCommit(before.message)),
            OutcomeView::NotStarted(e) => repo_failure(before, "git diff: "@ + e, after, cmd),
            _ => false,
        },
        Stage::Committing => match outcome {
            OutcomeView::Exited { success: true, .. } => push_or_finish(before, true, after, cmd),
            OutcomeView::Exited { stderr, .. } => repo_failure(before, "git commit failed: "@ + stderr, after, cmd),
            OutcomeView::NotStarted(e) => repo_failure(before, "git commit: "@ + e, after, cmd),
            _ => false,
        },
        Stage::Pushing => match outcome {
            OutcomeView::Exited { success: true, .. } => moves_to(
                before, after, cmd, Stage::Finished, push_report(before, true, "Copied to "@ + before.destination)),
            OutcomeView::Exited { stderr, .. } => exists|t: Seq<char>| #[trigger] is_trim_of(stderr, t) && moves_to(
                before, after, cmd, Stage::Finished, push_report(before, false, "rclone failed: "@ + t)),
            OutcomeView::NotStarted(e) => moves_to(
                before, after, cmd, Stage::Finished, push_report(before, false, "rclone not run: "@ + e)),
            _ => false,
        },
        Stage::Finished => false,
    }
}


/// `prefix` followed by `detail`.
fn prefixed(prefix: &str, detail: &str) -> (r: String)
    ensures
        r@ == prefix@ + detail@,
{
    let mut r = String::from_str(prefix);
    r.append(detail);
    r
}

impl BackupRun {
    /// Start a backup of the configured directory, committing with
    /// `message`; a background run swallows failures and pushes on a
    /// background thread. The first command creates the directory.
    pub fn start(cfg: &BackupConfig, message: &str, background: bool) -> (r: (BackupRun, Command))
        ensures
            r.0@ == (RunView {
                stage: Stage::CreatingDir,
                background,
                rclone_enabled: has_visible_char(cfg.rclone_remote@),
                destination: cfg.rclone_remote@ + seq![':'] + cfg.rclone_folder@,
                message: message@,
                committed: false,
            }),
            r.1@ == CommandView::CreateDir,
            run_wf(r.0@),
    {
        let run = BackupRun {
            stage: Stage::CreatingDir,
            background,
            rclone_enabled: cfg.rclone_enabled(),
            destination: cfg.rclone_destination(),
            message: String::from_str(message),
            committed: false,
        };
        (run, Command::CreateDir)
    }

    fn go(&mut self, stage: Stage, cmd: Command) -> (r: Command)
        ensures
            final(self)@ == (RunView { stage, ..old(self)@ }),
            r@ == cmd@,
    {
        self.stage = stage;
        cmd
    }

    fn push_or_finish(&mut self, committed: bool) -> (cmd: Command)
        ensures
            push_or_finish(old(self)@, committed, final(self)@, cmd@),
    {
        self.committed = committed;
        if self.background {
            self.stage = Stage::Finished;
            if self.rclone_enabled {
                Command::SpawnRcloneCopy(self.destination.clone())
            } else {
                Command::Stop
            }
        } else if self.rclone_enabled {
            self.stage = Stage::Pushing;
            Command::RcloneCopy(self.destination.clone())
        } else {
            self.stage = Stage::Finished;
            Command::Finish(Ok(BackupReport {
                committed,
                git_message: self.message.clone(),
                rclone_attempted: false,
                rclone_ok: false,
                rclone_message: String::from_str("Google Drive not configured — local git history only."),
            }))
        }
    }

    fn repo_failure(&mut self, error: String) -> (cmd: Command)
        ensures
            repo_failure(old(self)@, error@, final(self)@, cmd@),
    {
        if self.background {
            let committed = self.committed;
            self.push_or_finish(committed)
        } else {
            self.go(Stage::Finished, Command::Finish(Err(error)))
        }
    }

    fn push_report(&mut self, ok: bool, message: String) -> (cmd: Command)
        ensures
            moves_to(old(self)@, final(self)@, cmd@, Stage::Finished, push_report(old(self)@, ok, message@)),
    {
        self.stage = Stage::Finished;
        Command::Finish(Ok(BackupReport {
            committed: self.committed,
            git_message: self.message.clone(),
            rclone_attempted: true,
            rclone_ok: ok,
            rclone_message: message,
        }))
    }

    fn advance_repo(&mut self, outcome: Outcome) -> (cmd: Command)
        requires
            outcome_fits(old(self).stage, outcome@),
            old(self).stage == Stage::CreatingDir || old(self).stage == Stage::CheckingRepo
                || old(self).stage == Stage::InitializingRepo || old(self).stage == Stage::ReadingName
                || old(self).stage == Stage::WritingName || old(self).stage == Stage::ReadingEmail
                || old(self).stage == Stage::WritingEmail,
        ensures
            step_spec(old(self)@, outcome@, final(self)@, cmd@),
    {
        match self.stage {
            Stage::CreatingDir => match outcome {
                Outcome::Failed(e) => self.repo_failure(prefixed("create dir: ", e.as_str())),
                _ => self.go(Stage::CheckingRepo, Command::CheckRepo),
            },
            Stage::CheckingRepo => match outcome {
                Outcome::RepoExists(true) => self.go(
                    Stage::ReadingName,
                    Command::ReadGitConfig(String::from_str("user.name")),
                ),
                _ => self.go(Stage::InitializingRepo, Command::GitInit),
            },
            Stage::InitializingRepo => match outcome {
                Outcome::Exited { success: true, .. } => self.go(
                    Stage::ReadingName,
                    Command::ReadGitConfig(String::from_str("user.name")),
                ),
                Outcome::Exited { stderr, .. } => self.repo_failure(prefixed("git init failed: ", stderr.as_str())),
                Outcome::NotStarted(e) => self.repo_failure(prefixed("git init: ", e.as_str())),
                _ => Command::Stop,
            },
            Stage::ReadingName => match outcome {
                Outcome::Exited { success: true, stdout_empty: false, .. } => self.go(
                    Stage::ReadingEmail,
                    Command::ReadGitConfig(String::from_str("user.email")),
                ),
                _ => self.go(
                    Stage::WritingName,
                    Command::WriteGitConfig(String::from_str("user.name"), String::from_str("CRAcked")),
                ),
            },
            Stage::WritingName => self.go(
                Stage::ReadingEmail,
                Command::ReadGitConfig(String::from_str("user.email")),
            ),
            Stage::ReadingEmail => match outcome {
                Outcome::Exited { success: true, stdout_empty: false, .. } => self.go(
                    Stage::WritingSnapshot,
                    Command::WriteSnapshot,
                ),
                _ => self.go(
                    Stage::WritingEmail,
                    Command::WriteGitConfig(String::from_str("user.email"), String::from_str("cracked@localhost")),
                ),
            },
            Stage::WritingEmail => self.go(Stage::WritingSnapshot, Command::WriteSnapshot),
            _ => Command::Stop,
        }
    }

    fn advance_commit(&mut self, outcome: Outcome) -> (cmd: Command)
        requires
            outcome_fits(old(self).stage, outcome@),
            old(self).stage == Stage::WritingSnapshot || old(self).stage == Stage::Adding
                || old(self).stage == Stage::Diffing || old(self).stage == Stage::Committing,
        ensures
            step_spec(old(self)@, outcome@, final(self)@, cmd@),
    {
        match self.stage {
            Stage::WritingSnapshot => match outcome {
                Outcome::Failed(e) => if self.background {
                    self.go(Stage::Adding, Command::GitAdd)
                } else {
                    self.go(Stage::Finished, Command::Finish(Err(e)))
                },
                _ => self.go(Stage::Adding, Command::GitAdd),
            },
            Stage::Adding => match outcome {
                Outcome::Exited { success: true, .. } => self.go(Stage::Diffing, Command::GitDiffCached),
                Outcome::Exited { stderr, .. } => self.repo_failure(prefixed("git add failed: ", stderr.as_str())),
                Outcome::NotStarted(e) => self.repo_failure(prefixed("git add: ", e.as_str())),
                _ => Command::Stop,
            },
            Stage::Diffing => match outcome {
                Outcome::Exited { success: true, .. } => self.push_or_finish(false),
                Outcome::Exited { .. } => {
                    let message = self.message.clone();
                    self.go(Stage::Committing, Command::GitCommit(message))
                },
                Outcome::NotStarted(e) => self.repo_failure(prefixed("git diff: ", e.as_str())),
                _ => Command::Stop,
            },
            Stage::Committing => match outcome {
                Outcome::Exited { success: true, .. } => self.push_or_finish(true),
                Outcome::Exited { stderr, .. } => self.repo_failure(prefixed("git commit failed: ", stderr.as_str())),
                Outcome::NotStarted(e) => self.repo_failure(prefixed("git commit: ", e.as_str())),
                _ => Command::Stop,
            },
            _ => Command::Stop,
        }
    }

    fn advance_push(&mut self, outcome: Outcome) -> (cmd: Command)
        requires
            outcome_fits(old(self).stage, outcome@),
            old(self).stage == Stage::Pushing,
        ensures
            step_spec(old(self)@, outcome@, final(self)@, cmd@),
    {
        let ghost before = self@;
        let ghost o = outcome@;
        match outcome {
            Outcome::Exited { success: true, .. } => {
                let message = prefixed("Copied to ", self.destination.as_str());
                let cmd = self.push_report(true, message);
                assert(step_spec(before, o, self@, cmd@));
                cmd
            },
            Outcome::Exited { stderr, .. } => {
                let t = trim(stderr.as_str());
                let message = prefixed("rclone failed: ", t);
                let cmd = self.push_report(false, message);
                assert(is_trim_of(stderr@, t@));
                assert(moves_to(before, self@, cmd@, Stage::Finished, push_report(before, false, "rclone failed: "@ + t@)));
                assert(o->Exited_stderr == stderr@);
                assert(!o->Exited_success);
                assert(exists|t2: Seq<char>| #[trigger] is_trim_of(o->Exited_stderr, t2) && moves_to(before, self@, cmd@, Stage::Finished, push_report(before, false, "rclone failed: "@ + t2)));
                assert(step_spec(before, o, self@, cmd@));
                cmd
            },
            Outcome::NotStarted(e) => {
                let message = prefixed("rclone not run: ", e.as_str());
                let cmd = self.push_report(false, message);
                assert(step_spec(before, o, self@, cmd@));
                cmd
            },
            _ => Command::Stop,
        }
    }

    /// Take what the last command reported and return the next command.
    pub fn advance(&mut self, outcome: Outcome) -> (cmd: Command)
        requires
            outcome_fits(old(self).stage, outcome@),
        ensures
            step_spec(old(self)@, outcome@, final(self)@, cmd@),
    {
        match self.stage {
            Stage::WritingSnapshot | Stage::Adding | Stage::Diffing | Stage::Committing => self.advance_commit(outcome),
            Stage::Pushing => self.advance_push(outcome),
            Stage::Finished => Command::Stop,
            _ => self.advance_repo(outcome),
        }
    }
}


/// A step never changes what the run is: its mode, its destination, its
/// commit message and whether a remote is configured.
pub proof fn lemma_run_settings_kept(before: RunView, outcome: OutcomeView, after: RunView, cmd: CommandView)
    requires
        step_spec(before, outcome, after, cmd),
    ensures
        after.background == before.background,
        after.rclone_enabled == before.rclone_enabled,
        after.destination == before.destination,
        after.message == before.message,
{
}

/// Nothing is committed when the index has no staged change: after a clean
/// `git diff --cached --quiet` no commit is run and the run is not marked
/// committed.
pub proof fn lemma_no_commit_without_changes(before: RunView, outcome: OutcomeView, after: RunView, cmd: CommandView)
    requires
        step_spec(before, outcome, after, cmd),
        before.stage == Stage::Diffing,
        outcome matches OutcomeView::Exited { success: true, .. },
    ensures
        !after.committed,
        !(cmd is GitCommit),
{
}

/// A run is marked committed only by a successful `git commit`.
pub proof fn lemma_committed_only_by_commit(before: RunView, outcome: OutcomeView, after: RunView, cmd: CommandView)
    requires
        step_spec(before, outcome, after, cmd),
        !before.committed,
        after.committed,
    ensures
        before.stage == Stage::Committing,
        outcome matches OutcomeView::Exited { success: true, .. },
{
}

/// The remote is only ever copied to (never synced), only when a remote is
/// configured, and always at the configured destination.
pub proof fn lemma_push_only_when_configured(before: RunView, outcome: OutcomeView, after: RunView, cmd: CommandView)
    requires
        step_spec(before, outcome, after, cmd),
        cmd is RcloneCopy || cmd is SpawnRcloneCopy,
    ensures
        before.rclone_enabled,
        cmd is RcloneCopy ==> !before.background && cmd->RcloneCopy_0 == before.destination,
        cmd is SpawnRcloneCopy ==> before.background && cmd->SpawnRcloneCopy_0 == before.destination,
{
}

/// A (well-formed) background run always ends by handing the new state to the
/// remote when one is configured: every step that finishes such a run starts the
/// background copy to the configured destination, and without a remote it
/// simply stops.
pub proof fn lemma_background_run_ends_with_push(before: RunView, outcome: OutcomeView, after: RunView, cmd: CommandView)
    requires
        step_spec(before, outcome, after, cmd),
        run_wf(before),
        before.background,
        after.stage == Stage::Finished,
    ensures
        before.rclone_enabled ==> cmd == CommandView::SpawnRcloneCopy(before.destination),
        !before.rclone_enabled ==> cmd == CommandView::Stop,
{
}

/// A successful commit is always followed by the copy to the remote when one
/// is configured: a foreground run runs it and waits for it, a background
/// run starts it in the background; either way the run is marked committed.
pub proof fn lemma_commit_is_pushed(before: RunView, outcome: OutcomeView, after: RunView, cmd: CommandView)
    requires
        step_spec(before, outcome, after, cmd),
        before.stage == Stage::Committing,
        outcome matches OutcomeView::Exited { success: true, .. },
        before.rclone_enabled,
    ensures
        after.committed,
        before.background ==> cmd == CommandView::SpawnRcloneCopy(before.destination),
        !before.background ==> cmd == CommandView::RcloneCopy(before.destination),
{
}

/// A run is well formed: only a foreground run with a remote configured is
/// ever waiting on a push.
pub open spec fn run_wf(r: RunView) -> bool {
    r.stage == Stage::Pushing ==> !r.background && r.rclone_enabled
}

/// Every run starts well formed, and every step keeps it so.
pub proof fn lemma_steps_keep_run_wf(before: RunView, outcome: OutcomeView, after: RunView, cmd: CommandView)
    requires
        step_spec(before, outcome, after, cmd),
        run_wf(before),
    ensures
        run_wf(after),
{
}

/// A report tells the truth: it comes only from a foreground run, carries
/// the run's commit message and commit status, says a push was attempted
/// exactly when a remote is configured, and says the push succeeded only
/// when `rclone` exited successfully.
pub proof fn lemma_report_is_truthful(before: RunView, outcome: OutcomeView, after: RunView, cmd: CommandView)
    requires
        step_spec(before, outcome, after, cmd),
        run_wf(before),
        cmd matches CommandView::Finish(Ok(_)),
    ensures
        !before.background,
        after.stage == Stage::Finished,
        cmd->Finish_0->Ok_0.git_message == before.message,
        cmd->Finish_0->Ok_0.committed == after.committed,
        cmd->Finish_0->Ok_0.rclone_attempted == before.rclone_enabled,
        cmd->Finish_0->Ok_0.rclone_ok ==> before.stage == Stage::Pushing
            && outcome matches OutcomeView::Exited { success: true, .. },
{
}

/// A background run never finishes with an error: every failure is
/// swallowed and the run goes on to the push decision.
pub proof fn lemma_background_never_fails(before: RunView, outcome: OutcomeView, after: RunView, cmd: CommandView)
    requires
        step_spec(before, outcome, after, cmd),
        run_wf(before),
        before.background,
    ensures
        !(cmd is Finish),
{
}

} // verus!
