//! Decisions of the background payload updater: the npm command lines, how
//! npm's answer is read, when a check is due, when to install, and which
//! payload a start uses.
use vstd::prelude::*;

use crate::precedence::texts;
use crate::semver::{is_newer, version_greater};
use crate::text::{
    append_decimal, chars_of, decimal_text, is_white_space, join, lemma_decimal_text,
    lemma_digits_plain, lemma_parse_decimal_text, lemma_strip_end, lemma_strip_start, lemma_trim_end,
    lemma_trim_start, parse_u64,
    parse_u64_in, same_text, strip_both, strip_bounds, substring, trim, trim_bounds,
};

verus! {

/// The npm package that holds the server payload.
pub open spec fn package_name() -> Seq<char> {
    "@deepseek-ai/dsh"@
}

/// Seconds that must pass between two successful update checks.
pub const CHECK_INTERVAL_SECS: u64 = 21600;

/// The arguments of `npm view` that ask for the newest published version.
pub open spec fn view_args() -> Seq<Seq<char>> {
    seq![
        "view"@,
        package_name(),
        "version"@,
        "--json"@,
        "--fetch-timeout=15000"@,
        "--fetch-retries=0"@,
    ]
}

/// The arguments of `npm install` that install `version` of the package under `prefix`.
pub open spec fn install_args(prefix: Seq<char>, version: Seq<char>) -> Seq<Seq<char>> {
    seq![
        "install"@,
        "--prefix"@,
        prefix,
        "--omit=dev"@,
        "--no-audit"@,
        "--no-fund"@,
        "--fetch-timeout=60000"@,
        package_name() + "@"@ + version,
    ]
}

/// The version in `npm view --json` output: the output without surrounding
/// white space and without surrounding double quotes.
pub open spec fn viewed_version(out: Seq<char>) -> Seq<char> {
    strip_both(trim(out), '"')
}

/// The message given when `npm view` answered nothing.
pub open spec fn empty_view_message() -> Seq<char> {
    "npm view 返回为空"@
}

/// The time of the last successful check recorded in a stamp file's text:
/// the trimmed text read as a number, zero if it is not one.
pub open spec fn stamp_time(text: Seq<char>) -> u64 {
    match parse_u64(trim(text)) {
        Some(t) => t,
        None => 0,
    }
}

/// Whether a check at time `now` comes too soon after the one at `last`
/// (a clock that went backwards counts as too soon).
pub open spec fn too_soon(now: u64, last: u64) -> bool {
    (if now >= last {
        now - last
    } else {
        0
    }) < CHECK_INTERVAL_SECS
}

/// A stamp written as the decimal text of a time, with or without a final
/// line break, reads back as that time; and a check at `now` is then too
/// soon exactly when `now` is less than six hours after it.
pub proof fn lemma_stamp_round_trip(t: u64, now: u64)
    ensures
        stamp_time(decimal_text(t as nat)) == t,
        stamp_time(decimal_text(t as nat) + seq!['\n']) == t,
        too_soon(now, stamp_time(decimal_text(t as nat))) <==> now < t + 21600,
{
    let d = decimal_text(t as nat);
    lemma_decimal_text(t as nat);
    lemma_digits_plain(d);
    lemma_parse_decimal_text(t);
    assert(!is_white_space(d[0]) && !is_white_space(d.last()));
    lemma_trim_start(d, 0);
    assert(d.skip(0) =~= d);
    lemma_trim_end(d, d.len() as int);
    assert(d.take(d.len() as int) =~= d);
    let e = d + seq!['\n'];
    assert(e[0] == d[0]);
    lemma_trim_start(e, 0);
    assert(e.skip(0) =~= e);
    assert(is_white_space(e[d.len() as int]));
    assert(e[d.len() - 1] == d.last());
    lemma_trim_end(e, d.len() as int);
    assert(e.take(d.len() as int) =~= d);
}

/// The last `n` items are the final `min(n, len)` items, in order.
pub proof fn lemma_last_n<A>(s: Seq<A>, n: nat)
    ensures
        last_n(s, n).len() == if n < s.len() {
            n
        } else {
            s.len()
        },
        forall|i: int|
            0 <= i < last_n(s, n).len() ==> #[trigger] last_n(s, n)[i] == s[s.len() - last_n(
                s,
                n,
            ).len() + i],
{
}

/// `npm view --json` prints the version in double quotes followed by a line
/// break; reading that output gives the version back.
pub proof fn lemma_viewed_version(v: Seq<char>)
    requires
        v.len() > 0,
        v[0] != '"',
        v.last() != '"',
    ensures
        viewed_version(seq!['"'] + v + seq!['"', '\n']) == v,
{
    let q = seq!['"'] + v + seq!['"'];
    let out = q + seq!['\n'];
    assert(out =~= seq!['"'] + v + seq!['"', '\n']);
    assert(out[0] == '"');
    lemma_trim_start(out, 0);
    assert(out.skip(0) =~= out);
    assert(out[q.len() - 1] == '"');
    assert(is_white_space(out[q.len() as int]));
    lemma_trim_end(out, q.len() as int);
    assert(out.take(q.len() as int) =~= q);
    assert(q[1] == v[0]);
    lemma_strip_start(q, '"', 1);
    let u = q.skip(1);
    assert(u =~= v + seq!['"']);
    assert(u[v.len() - 1] == v.last());
    lemma_strip_end(u, '"', v.len() as int);
    assert(u.take(v.len() as int) =~= v);
}

/// A check is too soon exactly when it comes less than six hours after the
/// last one (a clock that went backwards always counts as too soon).
pub proof fn lemma_too_soon(now: u64, last: u64)
    ensures
        too_soon(now, last) <==> now < last + 21600,
{
}

fn push_text(v: &mut Vec<String>, s: &str)
    ensures
        final(v)@ == old(v)@.push(final(v)@.last()),
        final(v)@.last()@ == s@,
{
    v.push(String::from_str(s));
}

/// The arguments of the `npm view` call.
pub fn npm_view_args() -> (r: Vec<String>)
    ensures
        texts(r@) == view_args(),
{
    let mut r: Vec<String> = Vec::new();
    push_text(&mut r, "view");
    push_text(&mut r, "@deepseek-ai/dsh");
    push_text(&mut r, "version");
    push_text(&mut r, "--json");
    push_text(&mut r, "--fetch-timeout=15000");
    push_text(&mut r, "--fetch-retries=0");
    assert(texts(r@) =~= view_args());
    r
}

/// The arguments of the `npm install` call for `version` under `prefix`.
pub fn npm_install_args(prefix: &str, version: &str) -> (r: Vec<String>)
    ensures
        texts(r@) == install_args(prefix@, version@),
{
    let mut r: Vec<String> = Vec::new();
    push_text(&mut r, "install");
    push_text(&mut r, "--prefix");
    push_text(&mut r, prefix);
    push_text(&mut r, "--omit=dev");
    push_text(&mut r, "--no-audit");
    push_text(&mut r, "--no-fund");
    push_text(&mut r, "--fetch-timeout=60000");
    let mut spec_arg = String::from_str("@deepseek-ai/dsh");
    spec_arg.append("@");
    spec_arg.append(version);
    r.push(spec_arg);
    assert(texts(r@) =~= install_args(prefix@, version@));
    r
}

/// Reads the newest version out of `npm view --json` output; an answer that
/// is empty once white space and quotes are removed is an error.
pub fn parse_npm_view_output(out: &str) -> (r: Result<String, String>)
    ensures
        match r {
            Ok(v) => viewed_version(out@).len() > 0 && v@ == viewed_version(out@),
            Err(e) => viewed_version(out@).len() == 0 && e@ == empty_view_message(),
        },
{
    let cs = chars_of(out);
    let (lo, hi) = trim_bounds(&cs);
    let (a, b) = strip_bounds(&cs, lo, hi, '"');
    if a == b {
        Err(String::from_str("npm view 返回为空"))
    } else {
        Ok(substring(out, a, b))
    }
}

/// The last `n` of `s` (all of them when there are fewer), in order.
pub open spec fn last_n<A>(s: Seq<A>, n: nat) -> Seq<A> {
    s.skip(
        s.len() - (if n < s.len() {
            n as int
        } else {
            s.len() as int
        }),
    )
}

/// The last `n` of `lines` (all of them when there are fewer), in order.
pub fn last_lines(lines: &Vec<String>, n: usize) -> (r: Vec<String>)
    ensures
        texts(r@) == last_n(texts(lines@), n as nat),
{
    let len = lines.len();
    let start: usize = if n < len {
        len - n
    } else {
        0
    };
    let mut r: Vec<String> = Vec::new();
    let mut i: usize = start;
    while i < len
        invariant
            start <= i <= len == lines@.len(),
            r@.len() == i - start,
            forall|k: int| 0 <= k < r@.len() ==> (#[trigger] r@[k])@ == lines@[start + k]@,
        decreases len - i,
    {
        r.push(lines[i].clone());
        i = i + 1;
    }
    assert(texts(r@) =~= texts(lines@).skip(start as int));
    r
}

/// The time of the last successful check, from the stamp file's text.
pub fn last_check_time(text: &str) -> (r: u64)
    ensures
        r == stamp_time(text@),
{
    let cs = chars_of(text);
    let (lo, hi) = trim_bounds(&cs);
    match parse_u64_in(&cs, lo, hi) {
        Some(t) => t,
        None => 0,
    }
}

/// Whether a check at `now` is skipped because the last one was at `last`.
pub fn recently_checked(now: u64, last: u64) -> (r: bool)
    ensures
        r == too_soon(now, last),
{
    let elapsed: u64 = if now >= last {
        now - last
    } else {
        0
    };
    elapsed < CHECK_INTERVAL_SECS
}

/// Whether the updater is switched off: the setting is exactly `0`.
pub fn autoupdate_disabled(setting: Option<&str>) -> (r: bool)
    ensures
        r == (setting matches Some(v) && v@ == "0"@),
{
    match setting {
        Some(v) => same_text(v, "0"),
        None => false,
    }
}

/// Whether a reinstall is forced: the setting is exactly `1`.
pub fn force_update_requested(setting: Option<&str>) -> (r: bool)
    ensures
        r == (setting matches Some(v) && v@ == "1"@),
{
    match setting {
        Some(v) => same_text(v, "1"),
        None => false,
    }
}

/// Whether to install `latest`: when forced, when the current payload's
/// version is unknown, or when `latest` is newer than it.
pub fn update_wanted(force: bool, latest: &str, current: Option<&str>) -> (r: bool)
    ensures
        r == (force || match current {
            Some(c) => is_newer(latest@, c@),
            None => true,
        }),
{
    if force {
        return true;
    }
    match current {
        Some(c) => version_greater(latest, c),
        None => true,
    }
}

/// Which payload a start uses: the updated one when its version could be
/// read, else the bundled one; with the label that the log shows (`?` for a
/// bundled payload whose version is unknown).
pub fn select_payload(updated: Option<&str>, bundled: Option<&str>) -> (r: (bool, String))
    ensures
        r.0 == updated is Some,
        updated matches Some(v) ==> r.1@ == "updated v"@ + v@,
        updated is None ==> r.1@ == "bundled v"@ + match bundled {
            Some(v) => v@,
            None => "?"@,
        },
{
    match updated {
        Some(v) => {
            let mut label = String::from_str("updated v");
            label.append(v);
            (true, label)
        },
        None => {
            let mut label = String::from_str("bundled v");
            match bundled {
                Some(v) => label.append(v),
                None => label.append("?"),
            }
            (false, label)
        },
    }
}

/// Where the background updater stands.
#[derive(Debug)]
pub enum UpdatePhase {
    /// Nothing done yet.
    Starting,
    /// Waiting for the time of the last check and the clock.
    CheckingSchedule { force: bool },
    /// Waiting for npm's newest version.
    QueryingLatest { force: bool },
    /// Waiting for the version of the payload in use.
    ComparingCurrent { force: bool, latest: String },
    /// Waiting for the installation into the staging directory.
    Installing { latest: String },
    /// Waiting for the staged payload to be patched and its version read.
    Verifying { latest: String },
    /// Waiting for the staged payload to replace the old one.
    Replacing { installed: String },
    /// Done.
    Finished,
}

/// What the updater learned from the outside.
#[derive(Debug)]
pub enum UpdateEvent {
    /// The settings, and whether the application data directory is known.
    Settings { autoupdate: Option<String>, force_update: Option<String>, data_dir_found: bool },
    /// The stamp file's text (if it could be read) and the current time in seconds.
    Schedule { stamp: Option<String>, now: u64 },
    /// The output of `npm view`, or why it failed.
    LatestQueried(Result<String, String>),
    /// The version of the payload in use, if known.
    CurrentVersion(Option<String>),
    /// Whether `npm install` succeeded.
    InstallDone(bool),
    /// The staged payload's version, if it is complete.
    StagedVersion(Option<String>),
    /// Whether the staged payload replaced the old one.
    ReplaceDone(bool),
}

/// How an update run ended.
#[derive(Debug)]
pub enum UpdateOutcome {
    Disabled,
    NoDataDir,
    Throttled,
    QueryFailed(String),
    /// The payload in use, of this version, is not older than npm's newest.
    UpToDate(String),
    InstallFailed,
    VerifyFailed,
    Updated(String),
    ReplaceFailed,
    /// An event came that the phase does not wait for.
    Unexpected,
}

/// What the updater asks of the outside.
#[derive(Debug)]
pub enum UpdateAction {
    /// Read the stamp file and the clock.
    ReadSchedule,
    /// Run `npm view` with `npm_view_args()`.
    QueryLatest,
    /// Read the version of the payload in use (updated, else bundled).
    ReadCurrentVersion,
    /// Clear the staging directory and install `version` there.
    Install { version: String },
    /// Patch the staged payload and read its version.
    PatchAndReadStaged,
    /// Put the staged payload in the old one's place, keeping the old one
    /// until the staged one is in place and restoring it if the move fails.
    Replace,
    /// Stop; record the time of this check when `write_stamp`, remove the
    /// staging directory when `discard_staging`.
    Finish { outcome: UpdateOutcome, write_stamp: bool, discard_staging: bool },
}

/// The action that ends a run with `outcome`, writing neither stamp nor
/// discarding anything.
pub open spec fn plain_finish(outcome: UpdateOutcome) -> UpdateAction {
    UpdateAction::Finish { outcome, write_stamp: false, discard_staging: false }
}

/// Whether `setting` is present and holds exactly `value`.
pub open spec fn setting_is(setting: Option<String>, value: Seq<char>) -> bool {
    setting matches Some(v) && v@ == value
}

/// The stamp time a schedule event carries (zero when unreadable).
pub open spec fn schedule_last(stamp: Option<String>) -> u64 {
    match stamp {
        Some(t) => stamp_time(t@),
        None => 0,
    }
}

/// One step of the updater: from its phase and what it learned, to its next
/// phase and what it asks for.
pub fn update_step(phase: UpdatePhase, event: UpdateEvent) -> (r: (UpdatePhase, UpdateAction))
    ensures
        match (phase, event) {
            // Starting: read the settings.
            (UpdatePhase::Starting, UpdateEvent::Settings { autoupdate, force_update, data_dir_found }) => {
                if setting_is(autoupdate, "0"@) {
                    r.0 is Finished && r.1 == plain_finish(UpdateOutcome::Disabled)
                } else if !data_dir_found {
                    r.0 is Finished && r.1 == plain_finish(UpdateOutcome::NoDataDir)
                } else if setting_is(force_update, "1"@) {
                    r.0 == (UpdatePhase::QueryingLatest { force: true }) && r.1 is QueryLatest
                } else {
                    r.0 == (UpdatePhase::CheckingSchedule { force: false }) && r.1 is ReadSchedule
                }
            },
            // Checking the schedule: skip when the last check is too recent.
            (UpdatePhase::CheckingSchedule { force }, UpdateEvent::Schedule { stamp, now }) => {
                if too_soon(now, schedule_last(stamp)) {
                    r.0 is Finished && r.1 == plain_finish(UpdateOutcome::Throttled)
                } else {
                    r.0 == (UpdatePhase::QueryingLatest { force }) && r.1 is QueryLatest
                }
            },
            // Querying npm: a failed or empty answer ends the run.
            (UpdatePhase::QueryingLatest { force }, UpdateEvent::LatestQueried(answer)) => {
                match answer {
                    Ok(out) => if viewed_version(out@).len() > 0 {
                        &&& r.0 is ComparingCurrent
                        &&& r.0->ComparingCurrent_force == force
                        &&& r.0->ComparingCurrent_latest@ == viewed_version(out@)
                        &&& r.1 is ReadCurrentVersion
                    } else {
                        &&& r.0 is Finished
                        &&& r.1 is Finish
                        &&& r.1->outcome is QueryFailed
                        &&& r.1->outcome->QueryFailed_0@ == empty_view_message()
                        &&& !r.1->write_stamp
                        &&& !r.1->discard_staging
                    },
                    Err(e) => r.0 is Finished && r.1 == plain_finish(UpdateOutcome::QueryFailed(e)),
                }
            },
            // Comparing: install when forced, when the current version is
            // unknown or when the newest is newer; otherwise record the check.
            (UpdatePhase::ComparingCurrent { force, latest }, UpdateEvent::CurrentVersion(current)) => {
                if force || match current {
                    Some(c) => is_newer(latest@, c@),
                    None => true,
                } {
                    &&& r.0 is Installing
                    &&& r.0->Installing_latest@ == latest@
                    &&& r.1 is Install
                    &&& r.1->version@ == latest@
                } else {
                    &&& r.0 is Finished
                    &&& r.1 is Finish
                    &&& r.1->outcome is UpToDate
                    &&& current is Some
                    &&& r.1->outcome->UpToDate_0@ == current->0@
                    &&& r.1->write_stamp
                    &&& !r.1->discard_staging
                }
            },
            // Installing: a failed installation is discarded.
            (UpdatePhase::Installing { latest }, UpdateEvent::InstallDone(ok)) => {
                if ok {
                    &&& r.0 is Verifying
                    &&& r.0->Verifying_latest@ == latest@
                    &&& r.1 is PatchAndReadStaged
                } else {
                    &&& r.0 is Finished
                    &&& r.1 == (UpdateAction::Finish {
                        outcome: UpdateOutcome::InstallFailed,
                        write_stamp: false,
                        discard_staging: true,
                    })
                }
            },
            // Verifying: an incomplete payload is discarded.
            (UpdatePhase::Verifying { .. }, UpdateEvent::StagedVersion(staged)) => {
                match staged {
                    Some(v) => {
                        &&& r.0 is Replacing
                        &&& r.0->installed@ == v@
                        &&& r.1 is Replace
                    },
                    None => {
                        &&& r.0 is Finished
                        &&& r.1 == (UpdateAction::Finish {
                            outcome: UpdateOutcome::VerifyFailed,
                            write_stamp: false,
                            discard_staging: true,
                        })
                    },
                }
            },
            // Replacing: success records the check.
            (UpdatePhase::Replacing { installed }, UpdateEvent::ReplaceDone(ok)) => {
                &&& r.0 is Finished
                &&& if ok {
                    &&& r.1 is Finish
                    &&& r.1->outcome is Updated
                    &&& r.1->outcome->Updated_0@ == installed@
                    &&& r.1->write_stamp
                    &&& !r.1->discard_staging
                } else {
                    r.1 == plain_finish(UpdateOutcome::ReplaceFailed)
                }
            },
            // Any other pairing ends the run.
            _ => r.0 is Finished && r.1 == plain_finish(UpdateOutcome::Unexpected),
        },
        // A finished run stays finished.
        phase is Finished ==> r.0 is Finished,
        // The time of a check is recorded only when the payload is up to date or was updated.
        match r.1 {
            UpdateAction::Finish { outcome, write_stamp, .. } => write_stamp ==> (outcome is UpToDate
                || outcome is Updated),
            _ => true,
        },
{
    match (phase, event) {
        (UpdatePhase::Starting, UpdateEvent::Settings { autoupdate, force_update, data_dir_found }) => {
            if autoupdate_disabled(option_str(&autoupdate)) {
                (UpdatePhase::Finished, finish(UpdateOutcome::Disabled))
            } else if !data_dir_found {
                (UpdatePhase::Finished, finish(UpdateOutcome::NoDataDir))
            } else if force_update_requested(option_str(&force_update)) {
                (UpdatePhase::QueryingLatest { force: true }, UpdateAction::QueryLatest)
            } else {
                (UpdatePhase::CheckingSchedule { force: false }, UpdateAction::ReadSchedule)
            }
        },
        (UpdatePhase::CheckingSchedule { force }, UpdateEvent::Schedule { stamp, now }) => {
            let last = match &stamp {
                Some(t) => last_check_time(t.as_str()),
                None => 0,
            };
            if recently_checked(now, last) {
                (UpdatePhase::Finished, finish(UpdateOutcome::Throttled))
            } else {
                (UpdatePhase::QueryingLatest { force }, UpdateAction::QueryLatest)
            }
        },
        (UpdatePhase::QueryingLatest { force }, UpdateEvent::LatestQueried(answer)) => {
            match answer {
                Ok(out) => match parse_npm_view_output(out.as_str()) {
                    Ok(latest) => (
                        UpdatePhase::ComparingCurrent { force, latest },
                        UpdateAction::ReadCurrentVersion,
                    ),
                    Err(e) => (UpdatePhase::Finished, finish(UpdateOutcome::QueryFailed(e))),
                },
                Err(e) => (UpdatePhase::Finished, finish(UpdateOutcome::QueryFailed(e))),
            }
        },
        (UpdatePhase::ComparingCurrent { force, latest }, UpdateEvent::CurrentVersion(current)) => {
            if update_wanted(force, latest.as_str(), option_str(&current)) {
                let version = latest.clone();
                (UpdatePhase::Installing { latest }, UpdateAction::Install { version })
            } else {
                let version = match current {
                    Some(c) => c,
                    None => String::new(),
                };
                (
                    UpdatePhase::Finished,
                    UpdateAction::Finish {
                        outcome: UpdateOutcome::UpToDate(version),
                        write_stamp: true,
                        discard_staging: false,
                    },
                )
            }
        },
        (UpdatePhase::Installing { latest }, UpdateEvent::InstallDone(ok)) => {
            if ok {
                (UpdatePhase::Verifying { latest }, UpdateAction::PatchAndReadStaged)
            } else {
                (
                    UpdatePhase::Finished,
                    UpdateAction::Finish {
                        outcome: UpdateOutcome::InstallFailed,
                        write_stamp: false,
                        discard_staging: true,
                    },
                )
            }
        },
        (UpdatePhase::Verifying { .. }, UpdateEvent::StagedVersion(staged)) => {
            match staged {
                Some(installed) => (UpdatePhase::Replacing { installed }, UpdateAction::Replace),
                None => (
                    UpdatePhase::Finished,
                    UpdateAction::Finish {
                        outcome: UpdateOutcome::VerifyFailed,
                        write_stamp: false,
                        discard_staging: true,
                    },
                ),
            }
        },
        (UpdatePhase::Replacing { installed }, UpdateEvent::ReplaceDone(ok)) => {
            if ok {
                (
                    UpdatePhase::Finished,
                    UpdateAction::Finish {
                        outcome: UpdateOutcome::Updated(installed),
                        write_stamp: true,
                        discard_staging: false,
                    },
                )
            } else {
                (UpdatePhase::Finished, finish(UpdateOutcome::ReplaceFailed))
            }
        },
        _ => (UpdatePhase::Finished, finish(UpdateOutcome::Unexpected)),
    }
}

fn finish(outcome: UpdateOutcome) -> (r: UpdateAction)
    ensures
        r == plain_finish(outcome),
{
    UpdateAction::Finish { outcome, write_stamp: false, discard_staging: false }
}

fn option_str(o: &Option<String>) -> (r: Option<&str>)
    ensures
        match o {
            Some(s) => r matches Some(t) && t@ == s@,
            None => r is None,
        },
{
    match o {
        Some(s) => Some(s.as_str()),
        None => None,
    }
}

/// The decimal text of an integer, with `-` in front when it is negative.
pub open spec fn int_text(v: int) -> Seq<char> {
    if v < 0 {
        seq!['-'] + decimal_text((-v) as nat)
    } else {
        decimal_text(v as nat)
    }
}

/// How `{:?}` shows an `Option<i32>`: `None`, or `Some(` the number `)`.
pub open spec fn option_i32_debug(code: Option<i32>) -> Seq<char> {
    match code {
        None => "None"@,
        Some(c) => "Some("@ + int_text(c as int) + ")"@,
    }
}

/// The error of an npm run that ran out of time.
pub open spec fn npm_timeout_message() -> Seq<char> {
    "npm 命令超时"@
}

/// The error of an npm run that exited unsuccessfully: the exit code and the
/// last 20 lines of output.
pub open spec fn npm_failure_message(code: Option<i32>, lines: Seq<Seq<char>>) -> Seq<char> {
    "npm 退出码 "@ + option_i32_debug(code) + "，输出尾部：\n"@ + join(last_n(lines, 20), '\n')
}

/// The lines joined with line breaks.
pub fn join_lines(lines: &Vec<String>) -> (r: String)
    ensures
        r@ == join(texts(lines@), '\n'),
{
    let ghost all = texts(lines@);
    let mut r = String::new();
    let mut i: usize = 0;
    assert(all.take(0) =~= Seq::<Seq<char>>::empty());
    while i < lines.len()
        invariant
            i <= lines@.len(),
            all == texts(lines@),
            r@ == join(all.take(i as int), '\n'),
        decreases lines@.len() - i,
    {
        let ghost before = r@;
        let ghost p = all.take(i + 1);
        assert(p.drop_last() =~= all.take(i as int));
        assert(p.last() == lines@[i as int]@);
        if i > 0 {
            proof {
                reveal_strlit("\n");
            }
            r.append("\n");
            r.append(lines[i].as_str());
            assert(r@ =~= before + seq!['\n'] + lines@[i as int]@);
        } else {
            r.append(lines[i].as_str());
            assert(p =~= seq![lines@[0]@]);
            assert(r@ =~= lines@[0]@);
        }
        i = i + 1;
    }
    assert(all.take(lines@.len() as int) =~= all);
    r
}

/// Appends how `{:?}` shows `code` to `s`.
fn append_option_i32(s: &mut String, code: Option<i32>)
    ensures
        final(s)@ == old(s)@ + option_i32_debug(code),
{
    match code {
        None => {
            s.append("None");
        },
        Some(c) => {
            s.append("Some(");
            if c < 0 {
                proof {
                    reveal_strlit("-");
                }
                s.append("-");
                let magnitude: u64 = (0i64 - (c as i64)) as u64;
                append_decimal(s, magnitude);
            } else {
                let magnitude: u64 = c as u64;
                append_decimal(s, magnitude);
            }
            s.append(")");
            assert(final(s)@ =~= old(s)@ + option_i32_debug(code));
        },
    }
}

/// The result of an npm run: an error when it ran out of time or exited
/// unsuccessfully, else its output lines joined with line breaks.
pub fn npm_outcome(timed_out: bool, success: bool, code: Option<i32>, lines: &Vec<String>) -> (r: Result<String, String>)
    ensures
        timed_out ==> (r is Err && r->Err_0@ == npm_timeout_message()),
        !timed_out && success ==> (r is Ok && r->Ok_0@ == join(texts(lines@), '\n')),
        !timed_out && !success ==> (r is Err && r->Err_0@ == npm_failure_message(
            code,
            texts(lines@),
        )),
{
    if timed_out {
        return Err(String::from_str("npm 命令超时"));
    }
    if success {
        return Ok(join_lines(lines));
    }
    let mut msg = String::from_str("npm 退出码 ");
    append_option_i32(&mut msg, code);
    msg.append("，输出尾部：\n");
    let tail = last_lines(lines, 20);
    let joined = join_lines(&tail);
    msg.append(joined.as_str());
    Err(msg)
}

/// Something observed while an npm command runs.
#[derive(Debug)]
pub enum NpmEvent {
    /// A line of standard output.
    Line(String),
    /// Standard output closed: the command finished.
    OutputClosed,
    /// The time allowed for the command ran out.
    TimedOut,
}

/// What to do next while an npm command runs.
#[derive(PartialEq, Eq, Structural, Clone, Copy, Debug)]
pub enum NpmStep {
    /// Keep reading.
    Continue,
    /// Wait for the command's exit status.
    WaitForExit,
    /// Kill the command; the run failed for lack of time.
    KillForTimeout,
}

/// One step of collecting an npm command's output.
pub fn npm_collect_step(lines: &mut Vec<String>, event: NpmEvent) -> (r: NpmStep)
    ensures
        match event {
            NpmEvent::Line(l) => final(lines)@ == old(lines)@.push(l) && r == NpmStep::Continue,
            NpmEvent::OutputClosed => final(lines)@ == old(lines)@ && r == NpmStep::WaitForExit,
            NpmEvent::TimedOut => final(lines)@ == old(lines)@ && r == NpmStep::KillForTimeout,
        },
{
    match event {
        NpmEvent::Line(l) => {
            lines.push(l);
            NpmStep::Continue
        },
        NpmEvent::OutputClosed => NpmStep::WaitForExit,
        NpmEvent::TimedOut => NpmStep::KillForTimeout,
    }
}

} // verus!
